//! Text helpers: ordering, comparison, decimal numbers, lines and white space.

use vstd::prelude::*;
use vstd::string::*;
use vstd::utf8::*;

verus! {

/// How one text stands to another in byte order.
#[derive(Debug, Clone, Copy, PartialEq, Eq, Structural)]
pub enum TextOrder {
    Less,
    Same,
    Greater,
}

/// `a` and `b` agree below `k`, and at `k` either `a` ends first or has the smaller byte.
pub open spec fn smaller_at(a: Seq<u8>, b: Seq<u8>, k: int) -> bool {
    &&& 0 <= k <= a.len()
    &&& k < b.len()
    &&& forall|i: int| 0 <= i < k ==> a[i] == b[i]
    &&& (k == a.len() || a[k] < b[k])
}

/// Lexicographic order of byte strings.
pub open spec fn bytes_less(a: Seq<u8>, b: Seq<u8>) -> bool {
    exists|k: int| smaller_at(a, b, k)
}

/// The order in which texts are kept: that of their UTF-8 bytes.
pub open spec fn text_less(a: Seq<char>, b: Seq<char>) -> bool {
    bytes_less(encode_utf8(a), encode_utf8(b))
}

/// Distinct texts have distinct UTF-8 bytes.
pub proof fn lemma_encode_injective(a: Seq<char>, b: Seq<char>)
    requires
        encode_utf8(a) == encode_utf8(b),
    ensures
        a == b,
{
    encode_utf8_decode_utf8(a);
    encode_utf8_decode_utf8(b);
}

/// No text precedes itself.
pub proof fn lemma_text_less_irreflexive(a: Seq<char>)
    ensures
        !text_less(a, a),
{
}

/// The order of texts is transitive.
pub proof fn lemma_text_less_transitive(a: Seq<char>, b: Seq<char>, c: Seq<char>)
    requires
        text_less(a, b),
        text_less(b, c),
    ensures
        text_less(a, c),
{
    let x = encode_utf8(a);
    let y = encode_utf8(b);
    let z = encode_utf8(c);
    let i = choose|k: int| smaller_at(x, y, k);
    let j = choose|k: int| smaller_at(y, z, k);
    let k = if i < j { i } else { j };
    assert(smaller_at(x, z, k));
}

/// Compares two texts by their UTF-8 bytes.
pub fn text_order(a: &str, b: &str) -> (order: TextOrder)
    ensures
        match order {
            TextOrder::Less => text_less(a@, b@),
            TextOrder::Same => a@ == b@,
            TextOrder::Greater => text_less(b@, a@),
        },
{
    let x: &[u8] = a.as_bytes();
    let y: &[u8] = b.as_bytes();
    let mut i: usize = 0;
    while i < x.len() && i < y.len() && x[i] == y[i]
        invariant
            i <= x@.len(),
            i <= y@.len(),
            forall|j: int| 0 <= j < i ==> x@[j] == y@[j],
        decreases x@.len() - i,
    {
        i += 1;
    }
    if i < x.len() {
        if i < y.len() && x[i] < y[i] {
            assert(smaller_at(x@, y@, i as int));
            TextOrder::Less
        } else {
            assert(i < y.len() ==> smaller_at(y@, x@, i as int));
            assert(i == y.len() ==> smaller_at(y@, x@, i as int));
            TextOrder::Greater
        }
    } else if i < y.len() {
        assert(smaller_at(x@, y@, i as int));
        TextOrder::Less
    } else {
        assert(x@ =~= y@);
        proof {
            lemma_encode_injective(a@, b@);
        }
        TextOrder::Same
    }
}

/// Whether two texts are the same.
pub fn text_eq(a: &str, b: &str) -> (same: bool)
    ensures
        same == (a@ == b@),
{
    proof {
        lemma_text_less_irreflexive(a@);
    }
    match text_order(a, b) {
        TextOrder::Same => true,
        _ => false,
    }
}

/// The characters of a text.
pub fn chars_of(text: &str) -> (chars: Vec<char>)
    ensures
        chars@ == text@,
{
    let mut chars: Vec<char> = Vec::new();
    for c in it: text.chars()
        invariant
            chars@ == it.seq().take(it.index() as int),
    {
        chars.push(c);
        assert(it.seq().take(it.index() + 1) =~= it.seq().take(it.index() as int).push(c));
    }
    assert(chars@ =~= text@);
    chars
}

/// `String::push`: appends one character.
pub assume_specification[ String::push ](text: &mut String, c: char)
    ensures
        final(text)@ == old(text)@.push(c),
;

/// `String::from_utf8`: succeeds exactly on valid UTF-8, and then holds the decoded characters.
/// The error, which gives the bytes back, is reduced to `None`.
#[verifier::external_body]
pub(crate) fn text_from_utf8(bytes: Vec<u8>) -> (text: Option<String>)
    ensures
        text is Some == valid_utf8(bytes@),
        text is Some ==> text->Some_0@ == decode_utf8(bytes@),
{
    String::from_utf8(bytes).ok()
}

/// What the `Debug` formatting of a `str` writes: the text in quotes, with escapes.
pub uninterp spec fn debug_text(text: Seq<char>) -> Seq<char>;

/// The `Debug` formatting of a `str`, a function of the text alone.
#[verifier::external_body]
pub(crate) fn debug_quoted(text: &str) -> (quoted: String)
    ensures
        quoted@ == debug_text(text@),
{
    format!("{text:?}")
}

/// The decimal digit `d`.
pub open spec fn digit(d: int) -> char
    recommends
        0 <= d < 10,
{
    (48 + d) as char
}

/// A natural number in decimal, without leading zeros.
pub open spec fn decimal(n: nat) -> Seq<char>
    decreases n,
{
    if n < 10 {
        seq![digit(n as int)]
    } else {
        decimal(n / 10).push(digit((n % 10) as int))
    }
}

/// An integer in decimal, with a minus sign where it is negative.
pub open spec fn signed_decimal(n: int) -> Seq<char> {
    if n < 0 {
        seq!['-'] + decimal((-n) as nat)
    } else {
        decimal(n as nat)
    }
}

/// Appends `n` in decimal.
pub fn append_decimal(text: &mut String, n: u64)
    ensures
        final(text)@ == old(text)@ + decimal(n as nat),
    decreases n,
{
    if n >= 10 {
        append_decimal(text, n / 10);
    }
    let d: u8 = (n % 10) as u8;
    let c: char = (48 + d) as char;
    text.push(c);
    assert(text@ =~= old(text)@ + decimal(n as nat));
}

/// Appends `n` in decimal, with a minus sign where it is negative.
pub fn append_signed_decimal(text: &mut String, n: i64)
    ensures
        final(text)@ == old(text)@ + signed_decimal(n as int),
{
    if n < 0 {
        text.push('-');
        let magnitude: u64 = (-(n as i128)) as u64;
        append_decimal(text, magnitude);
        assert(text@ =~= old(text)@ + signed_decimal(n as int));
    } else {
        append_decimal(text, n as u64);
    }
}

/// An ASCII capital as its small letter; any other character as it is.
pub open spec fn ascii_lower(c: char) -> char {
    if 'A' <= c && c <= 'Z' {
        (c as u32 + 32) as char
    } else {
        c
    }
}

/// The text with its ASCII capitals made small.
pub open spec fn ascii_lowered(text: Seq<char>) -> Seq<char> {
    text.map_values(|c: char| ascii_lower(c))
}

fn lower(c: char) -> (l: char)
    ensures
        l == ascii_lower(c),
{
    if 'A' <= c && c <= 'Z' {
        let b: u8 = c as u8;
        (b + 32) as char
    } else {
        c
    }
}

/// Whether two texts agree up to the case of ASCII letters.
pub fn eq_ignore_ascii_case(a: &str, b: &str) -> (same: bool)
    ensures
        same == (ascii_lowered(a@) == ascii_lowered(b@)),
{
    let x = chars_of(a);
    let y = chars_of(b);
    let ghost p = ascii_lowered(a@);
    let ghost q = ascii_lowered(b@);
    assert(p.len() == x@.len());
    assert(q.len() == y@.len());
    if x.len() != y.len() {
        return false;
    }
    for i in 0..x.len()
        invariant
            x@ == a@,
            y@ == b@,
            x@.len() == y@.len(),
            p == ascii_lowered(a@),
            q == ascii_lowered(b@),
            forall|j: int| 0 <= j < i ==> p[j] == q[j],
    {
        if lower(x[i]) != lower(y[i]) {
            assert(p[i as int] != q[i as int]);
            return false;
        }
    }
    assert(p =~= q);
    true
}

/// The text with every `from` replaced by `to`.
pub open spec fn replaced(text: Seq<char>, from: char, to: char) -> Seq<char> {
    text.map_values(|c: char| if c == from { to } else { c })
}

/// Replaces every `from` by `to`.
pub fn replace_char(text: &str, from: char, to: char) -> (result: String)
    ensures
        result@ == replaced(text@, from, to),
{
    let mut result = String::new();
    for c in it: text.chars()
        invariant
            result@ == replaced(it.seq().take(it.index() as int), from, to),
    {
        if c == from {
            result.push(to);
        } else {
            result.push(c);
        }
        assert(it.seq().take(it.index() + 1) =~= it.seq().take(it.index() as int).push(c));
        assert(result@ =~= replaced(it.seq().take(it.index() + 1), from, to));
    }
    assert(result@ =~= replaced(text@, from, to));
    result
}

/// Each line followed by a line feed.
pub open spec fn lines_text(lines: Seq<Seq<char>>) -> Seq<char>
    decreases lines.len(),
{
    if lines.len() == 0 {
        Seq::empty()
    } else {
        lines_text(lines.drop_last()) + lines.last().push('\n')
    }
}

/// Joins lines into a text, each followed by a line feed.
pub fn join_lines(lines: &Vec<String>) -> (text: String)
    ensures
        text@ == lines_text(lines.deep_view()),
{
    let mut text = String::new();
    let ghost all = lines.deep_view();
    for i in 0..lines.len()
        invariant
            all == lines.deep_view(),
            text@ == lines_text(all.take(i as int)),
    {
        text.append(lines[i].as_str());
        text.push('\n');
        assert(all.take(i + 1).drop_last() =~= all.take(i as int));
        assert(all.take(i + 1).last() == lines@[i as int]@);
        assert(text@ =~= lines_text(all.take(i + 1)));
    }
    assert(all.take(lines@.len() as int) =~= all);
    text
}

/// A character with the Unicode property `White_Space`.
pub open spec fn is_white_space(c: char) -> bool {
    let n = c as int;
    ||| 0x9 <= n <= 0xd
    ||| n == 0x20
    ||| n == 0x85
    ||| n == 0xa0
    ||| n == 0x1680
    ||| 0x2000 <= n <= 0x200a
    ||| n == 0x2028
    ||| n == 0x2029
    ||| n == 0x202f
    ||| n == 0x205f
    ||| n == 0x3000
}

/// The text without white space at its beginning.
pub open spec fn trimmed_start(text: Seq<char>) -> Seq<char>
    decreases text.len(),
{
    if text.len() > 0 && is_white_space(text[0]) {
        trimmed_start(text.drop_first())
    } else {
        text
    }
}

/// The text without white space at its end.
pub open spec fn trimmed_end(text: Seq<char>) -> Seq<char>
    decreases text.len(),
{
    if text.len() > 0 && is_white_space(text.last()) {
        trimmed_end(text.drop_last())
    } else {
        text
    }
}

/// The text without white space at its ends.
pub open spec fn trimmed(text: Seq<char>) -> Seq<char> {
    trimmed_end(trimmed_start(text))
}

fn white_space(c: char) -> (white: bool)
    ensures
        white == is_white_space(c),
{
    let n: u32 = c as u32;
    (0x9 <= n && n <= 0xd) || n == 0x20 || n == 0x85 || n == 0xa0 || n == 0x1680 || (0x2000 <= n
        && n <= 0x200a) || n == 0x2028 || n == 0x2029 || n == 0x202f || n == 0x205f || n == 0x3000
}

/// Takes white space off the ends of a text.
pub fn trim(text: &str) -> (rest: String)
    ensures
        rest@ == trimmed(text@),
{
    let chars = chars_of(text);
    let mut start: usize = 0;
    assert(chars@.skip(0) =~= chars@);
    while start < chars.len() && white_space(chars[start])
        invariant
            start <= chars@.len(),
            trimmed_start(chars@.skip(start as int)) == trimmed_start(chars@),
        decreases chars@.len() - start,
    {
        assert(chars@.skip(start as int).drop_first() =~= chars@.skip(start + 1));
        start += 1;
    }
    let ghost from_start = chars@.skip(start as int);
    assert(from_start == trimmed_start(chars@));
    let mut end: usize = chars.len();
    assert(chars@.subrange(start as int, end as int) =~= from_start);
    while end > start && white_space(chars[end - 1])
        invariant
            start <= end <= chars@.len(),
            from_start == chars@.skip(start as int),
            trimmed_end(chars@.subrange(start as int, end as int)) == trimmed_end(from_start),
        decreases end,
    {
        assert(chars@.subrange(start as int, end as int).drop_last() =~= chars@.subrange(
            start as int,
            end - 1,
        ));
        end -= 1;
    }
    let mut rest = String::new();
    for i in start..end
        invariant
            start <= end <= chars@.len(),
            rest@ == chars@.subrange(start as int, i as int),
    {
        rest.push(chars[i]);
        assert(rest@ =~= chars@.subrange(start as int, i + 1));
    }
    rest
}

/// Texts are ordered by the first byte in which they differ; one that another begins with comes
/// before it.
pub proof fn law_first_differing_byte_decides(a: Seq<char>, b: Seq<char>, k: int)
    requires
        0 <= k <= encode_utf8(a).len(),
        k < encode_utf8(b).len(),
        encode_utf8(a).take(k) == encode_utf8(b).take(k),
        k < encode_utf8(a).len() ==> encode_utf8(a)[k] < encode_utf8(b)[k],
    ensures
        text_less(a, b),
        !text_less(b, a),
{
    let x = encode_utf8(a);
    let y = encode_utf8(b);
    assert forall|i: int| 0 <= i < k implies x[i] == y[i] by {
        assert(x.take(k)[i] == y.take(k)[i]);
    }
    assert(smaller_at(x, y, k));
    if text_less(b, a) {
        let j = choose|j: int| smaller_at(y, x, j);
        assert(j < k ==> x[j] == y[j]);
        assert(k < j ==> y[k] == x[k]);
    }
}

/// The number that decimal digits stand for.
pub open spec fn decimal_value(digits: Seq<char>) -> int
    decreases digits.len(),
{
    if digits.len() == 0 {
        0
    } else {
        10 * decimal_value(digits.drop_last()) + (digits.last() as int - '0' as int)
    }
}

/// All characters are decimal digits.
pub open spec fn all_digits(text: Seq<char>) -> bool {
    forall|i: int| 0 <= i < text.len() ==> '0' <= #[trigger] text[i] && text[i] <= '9'
}

/// A number is written in digits that stand for it, without needless zeros.
pub proof fn law_decimal_reads_back(n: nat)
    ensures
        all_digits(decimal(n)),
        decimal_value(decimal(n)) == n,
        decimal(n).len() > 0,
        n > 0 ==> decimal(n)[0] != '0',
        n == 0 ==> decimal(n).len() == 1,
    decreases n,
{
    reveal_with_fuel(decimal_value, 2);
    if n >= 10 {
        law_decimal_reads_back(n / 10);
        assert(decimal(n).drop_last() =~= decimal(n / 10));
        assert(decimal(n)[0] == decimal(n / 10)[0]);
    } else {
        assert(decimal(n).drop_last() =~= Seq::empty());
    }
}

/// A negative number is written as a minus sign and the digits of its magnitude.
pub proof fn law_signed_decimal_reads_back(n: int)
    ensures
        n >= 0 ==> all_digits(signed_decimal(n)) && decimal_value(signed_decimal(n)) == n,
        n < 0 ==> signed_decimal(n)[0] == '-' && all_digits(signed_decimal(n).skip(1))
            && decimal_value(signed_decimal(n).skip(1)) == -n,
{
    if n >= 0 {
        law_decimal_reads_back(n as nat);
    } else {
        law_decimal_reads_back((-n) as nat);
        assert(signed_decimal(n).skip(1) =~= decimal((-n) as nat));
    }
}

/// Two characters are one, or one ASCII letter in two cases.
pub open spec fn same_letter(a: char, b: char) -> bool {
    ||| a == b
    ||| 'A' <= a && a <= 'Z' && b as int == a as int + 32
    ||| 'A' <= b && b <= 'Z' && a as int == b as int + 32
}

/// Two texts are the same but for the case of their ASCII letters.
pub open spec fn same_letters(a: Seq<char>, b: Seq<char>) -> bool {
    &&& a.len() == b.len()
    &&& forall|i: int| 0 <= i < a.len() ==> same_letter(#[trigger] a[i], b[i])
}

/// Texts agree up to case exactly where each pair of characters does: nothing but the case of ASCII
/// letters is ignored.
pub proof fn law_only_case_is_ignored(a: Seq<char>, b: Seq<char>)
    ensures
        ascii_lowered(a) == ascii_lowered(b) <==> same_letters(a, b),
{
    if ascii_lowered(a) == ascii_lowered(b) {
        assert(ascii_lowered(a).len() == a.len());
        assert(ascii_lowered(b).len() == b.len());
        assert forall|i: int| 0 <= i < a.len() implies same_letter(#[trigger] a[i], b[i]) by {
            assert(ascii_lowered(a)[i] == ascii_lower(a[i]));
            assert(ascii_lowered(b)[i] == ascii_lower(b[i]));
        }
    }
    if same_letters(a, b) {
        assert forall|i: int| 0 <= i < a.len() implies ascii_lowered(a)[i] == ascii_lowered(
            b,
        )[i] by {
            assert(same_letter(a[i], b[i]));
        }
        assert(ascii_lowered(a) =~= ascii_lowered(b));
    }
}

/// Replacing a character leaves all others in their places.
pub proof fn law_only_one_character_is_replaced(text: Seq<char>, from: char, to: char, i: int)
    requires
        0 <= i < text.len(),
    ensures
        replaced(text, from, to).len() == text.len(),
        text[i] != from ==> replaced(text, from, to)[i] == text[i],
        text[i] == from ==> replaced(text, from, to)[i] == to,
{
}

/// In a text of lines each line stands where the lines before it end, followed by a line feed, and
/// nothing else is there.
pub proof fn law_each_line_stands_in_its_place(lines: Seq<Seq<char>>, i: int)
    requires
        0 <= i < lines.len(),
    ensures
        ({
            let text = lines_text(lines);
            let start = lines_text(lines.take(i)).len() as int;
            let end = start + lines[i].len();
            &&& lines_text(lines.take(i + 1)).len() == end + 1
            &&& end < text.len()
            &&& text.subrange(start, end) == lines[i]
            &&& text[end] == '\n'
            &&& i == 0 ==> start == 0
            &&& i == lines.len() - 1 ==> end == text.len() - 1
        }),
    decreases lines.len(),
{
    let text = lines_text(lines);
    let before = lines_text(lines.drop_last());
    assert(text =~= before + lines.last().push('\n'));
    if i == lines.len() - 1 {
        assert(lines.take(i) =~= lines.drop_last());
        assert(lines.take(i + 1) =~= lines);
        assert(text.subrange(before.len() as int, text.len() - 1) =~= lines[i]);
    } else {
        let rest = lines.drop_last();
        law_each_line_stands_in_its_place(rest, i);
        assert(rest.take(i) =~= lines.take(i));
        assert(rest.take(i + 1) =~= lines.take(i + 1));
        let start = lines_text(lines.take(i)).len() as int;
        let end = start + lines[i].len();
        assert(text.subrange(start, end) =~= before.subrange(start, end));
        assert(text[end] == before[end]);
    }
    if i == 0 {
        assert(lines.take(0) =~= Seq::empty());
    }
}

/// Among the ASCII characters exactly the space and those from tab to carriage return are white.
pub proof fn law_ascii_white_space(c: char)
    requires
        (c as int) < 128,
    ensures
        is_white_space(c) <==> c == ' ' || 9 <= (c as int) <= 13,
{
}

/// What trimming leaves is the part of the text between the places `i` and `j`.
pub open spec fn trims_to(text: Seq<char>, i: int, j: int) -> bool {
    &&& 0 <= i <= j <= text.len()
    &&& trimmed(text) == text.subrange(i, j)
    &&& forall|k: int| 0 <= k < i ==> is_white_space(#[trigger] text[k])
    &&& forall|k: int| j <= k < text.len() ==> is_white_space(#[trigger] text[k])
    &&& i < j ==> !is_white_space(text[i]) && !is_white_space(text[j - 1])
}

/// Trimming takes off white space at both ends, all of it, and leaves what stands in between.
pub proof fn law_trimming_leaves_the_middle(text: Seq<char>)
    ensures
        exists|i: int, j: int| trims_to(text, i, j),
{
    let i = lemma_trimmed_start(text);
    let rest = trimmed_start(text);
    let n = lemma_trimmed_end(rest);
    let j = i + n;
    assert(trimmed(text) =~= text.subrange(i, j));
    assert forall|k: int| j <= k < text.len() implies is_white_space(#[trigger] text[k]) by {
        assert(rest[k - i] == text[k]);
    }
    assert(i < j ==> rest[0] == text[i] && rest[n - 1] == text[j - 1]);
    assert(trims_to(text, i, j));
}

proof fn lemma_trimmed_start(text: Seq<char>) -> (i: int)
    ensures
        0 <= i <= text.len(),
        trimmed_start(text) == text.skip(i),
        forall|k: int| 0 <= k < i ==> is_white_space(#[trigger] text[k]),
        i < text.len() ==> !is_white_space(text[i]),
    decreases text.len(),
{
    if text.len() > 0 && is_white_space(text[0]) {
        let i = lemma_trimmed_start(text.drop_first());
        assert(text.drop_first().skip(i) =~= text.skip(i + 1));
        assert forall|k: int| 0 <= k < i + 1 implies is_white_space(#[trigger] text[k]) by {
            if k > 0 {
                assert(text.drop_first()[k - 1] == text[k]);
            }
        }
        i + 1
    } else {
        assert(text.skip(0) =~= text);
        0
    }
}

proof fn lemma_trimmed_end(text: Seq<char>) -> (n: int)
    ensures
        0 <= n <= text.len(),
        trimmed_end(text) == text.take(n),
        forall|k: int| n <= k < text.len() ==> is_white_space(#[trigger] text[k]),
        n > 0 ==> !is_white_space(text[n - 1]),
    decreases text.len(),
{
    if text.len() > 0 && is_white_space(text.last()) {
        let n = lemma_trimmed_end(text.drop_last());
        assert(text.drop_last().take(n) =~= text.take(n));
        assert forall|k: int| n <= k < text.len() implies is_white_space(#[trigger] text[k]) by {
            if k < text.len() - 1 {
                assert(text.drop_last()[k] == text[k]);
            }
        }
        n
    } else {
        assert(text.take(text.len() as int) =~= text);
        text.len() as int
    }
}

/// Two texts are the same, or one comes before the other, never both; the order of two texts is
/// turned round with them.
pub proof fn law_texts_are_ordered(
    a: &str,
    b: &str,
    order: TextOrder,
    turned: TextOrder,
    same: bool,
)
    requires
        call_ensures(text_order, (a, b), order),
        call_ensures(text_order, (b, a), turned),
        call_ensures(text_eq, (a, b), same),
    ensures
        same <==> a@ == b@,
        order is Same <==> a@ == b@,
        order is Less <==> turned is Greater,
        order is Less ==> text_less(a@, b@),
        order is Greater ==> text_less(b@, a@),
{
    lemma_text_less_irreflexive(a@);
    lemma_text_less_irreflexive(b@);
    if text_less(a@, b@) && text_less(b@, a@) {
        lemma_text_less_transitive(a@, b@, a@);
    }
}

/// Numbers are appended in decimal, and texts compared, replaced, joined and trimmed as is said of
/// them.
pub proof fn law_text_is_made_as_it_is_said(
    a: &str,
    b: &str,
    same: bool,
    from: char,
    to: char,
    changed: String,
    lines: Vec<String>,
    joined: String,
    rest: String,
)
    requires
        call_ensures(eq_ignore_ascii_case, (a, b), same),
        call_ensures(replace_char, (a, from, to), changed),
        call_ensures(join_lines, (&lines,), joined),
        call_ensures(trim, (a,), rest),
    ensures
        same <==> same_letters(a@, b@),
        changed@.len() == a@.len(),
        forall|i: int| 0 <= i < a@.len() && a@[i] != from ==> #[trigger] changed@[i] == a@[i],
        forall|i: int| 0 <= i < a@.len() && a@[i] == from ==> #[trigger] changed@[i] == to,
        joined@ == lines_text(lines.deep_view()),
        exists|i: int, j: int|
            trims_to(a@, i, j) && rest@ == #[trigger] a@.subrange(i, j),
{
    law_only_case_is_ignored(a@, b@);
    law_trimming_leaves_the_middle(a@);
    let (i, j) = choose|i: int, j: int| trims_to(a@, i, j);
    assert(rest@ == a@.subrange(i, j));
}

/// A number that is appended stands at the end of the text, in decimal.
pub proof fn law_number_is_appended(text: &mut String, n: u64)
    requires
        call_ensures(append_decimal, (text, n), ()),
    ensures
        final(text)@.len() > old(text)@.len(),
        final(text)@.take(old(text)@.len() as int) == old(text)@,
        all_digits(final(text)@.skip(old(text)@.len() as int)),
        decimal_value(final(text)@.skip(old(text)@.len() as int)) == n,
{
    law_decimal_reads_back(n as nat);
    assert(final(text)@.skip(old(text)@.len() as int) =~= decimal(n as nat));
    assert(final(text)@.take(old(text)@.len() as int) =~= old(text)@);
}

/// So is a number with its sign.
pub proof fn law_signed_number_is_appended(text: &mut String, n: i64)
    requires
        call_ensures(append_signed_decimal, (text, n), ()),
    ensures
        final(text)@.take(old(text)@.len() as int) == old(text)@,
        n >= 0 ==> decimal_value(final(text)@.skip(old(text)@.len() as int)) == n,
        n < 0 ==> final(text)@[old(text)@.len() as int] == '-' && decimal_value(
            final(text)@.skip(old(text)@.len() as int + 1),
        ) == -n,
{
    law_signed_decimal_reads_back(n as int);
    let start = old(text)@.len() as int;
    assert(final(text)@.skip(start) =~= signed_decimal(n as int));
    assert(final(text)@.take(start) =~= old(text)@);
    assert(n < 0 ==> final(text)@.skip(start + 1) =~= signed_decimal(n as int).skip(1));
    assert(n < 0 ==> final(text)@[start] == signed_decimal(n as int)[0]);
}

/// Exactly these characters are white: tab to carriage return, the space, next line, and the spaces
/// and separators beyond ASCII.
pub proof fn law_white_space_is_that_of_unicode(c: char)
    ensures
        is_white_space(c) <==> {
            let n = c as int;
            ||| n == 0x9 || n == 0xa || n == 0xb || n == 0xc || n == 0xd || n == 0x20
            ||| n == 0x85 || n == 0xa0 || n == 0x1680 || n == 0x2000 || n == 0x2001
            ||| n == 0x2002 || n == 0x2003 || n == 0x2004 || n == 0x2005 || n == 0x2006
            ||| n == 0x2007 || n == 0x2008 || n == 0x2009 || n == 0x200a || n == 0x2028
            ||| n == 0x2029 || n == 0x202f || n == 0x205f || n == 0x3000
        },
{
}

} // verus!
