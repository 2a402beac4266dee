//! Entity escaping and whitespace trimming.
//!
//! [`escape_seq`] is the specification of entity escaping: a pure function
//! from a character sequence and an [`EntityMode`] to the escaped sequence.
//! [`process_entities`] is the executable form, proved to return exactly
//! that. [`trim_seq`] specifies Unicode-whitespace trimming as applied to
//! text content.

use vstd::prelude::*;
use vstd::string::StrSliceExecFns;
use vstd::string::StringExecFns;

use crate::config::EntityMode;

verus! {

/// The five characters that are syntactically significant in markup.
pub open spec fn is_reserved_char(c: char) -> bool {
    c == '<' || c == '>' || c == '\'' || c == '"' || c == '&'
}

/// ASCII control characters: code points below 0x20, and 0x7F.
pub open spec fn is_ascii_control_char(c: char) -> bool {
    (c as u32) < 0x20 || (c as u32) == 0x7F
}

/// Characters with the Unicode `White_Space` property, as trimmed from the
/// ends of text content.
pub open spec fn is_whitespace_char(c: char) -> bool {
    let u = c as u32;
    ||| u == 0x09
    ||| u == 0x0A
    ||| u == 0x0B
    ||| u == 0x0C
    ||| u == 0x0D
    ||| u == 0x20
    ||| u == 0x85
    ||| u == 0xA0
    ||| u == 0x1680
    ||| (0x2000 <= u && u <= 0x200A)
    ||| u == 0x2028
    ||| u == 0x2029
    ||| u == 0x202F
    ||| u == 0x205F
    ||| u == 0x3000
}

/// The uppercase hexadecimal digit for a value below sixteen.
pub open spec fn hex_digit_char(d: int) -> char {
    if d == 0 {
        '0'
    } else if d == 1 {
        '1'
    } else if d == 2 {
        '2'
    } else if d == 3 {
        '3'
    } else if d == 4 {
        '4'
    } else if d == 5 {
        '5'
    } else if d == 6 {
        '6'
    } else if d == 7 {
        '7'
    } else if d == 8 {
        '8'
    } else if d == 9 {
        '9'
    } else if d == 10 {
        'A'
    } else if d == 11 {
        'B'
    } else if d == 12 {
        'C'
    } else if d == 13 {
        'D'
    } else if d == 14 {
        'E'
    } else {
        'F'
    }
}

/// Four zero-padded uppercase hexadecimal digits of a code point below
/// 0x10000.
pub open spec fn hex4(n: int) -> Seq<char> {
    seq![
        hex_digit_char((n / 0x1000) % 16),
        hex_digit_char((n / 0x100) % 16),
        hex_digit_char((n / 16) % 16),
        hex_digit_char(n % 16),
    ]
}

/// The numeric hex entity `&#xHHHH;` for a character.
pub open spec fn hex_entity(c: char) -> Seq<char> {
    seq!['&', '#', 'x'] + hex4(c as u32 as int) + seq![';']
}

/// What one character escapes to under the given mode.
pub open spec fn escape_char(c: char, mode: EntityMode) -> Seq<char> {
    match mode {
        EntityMode::Standard => {
            if c == '&' {
                seq!['&', 'a', 'm', 'p', ';']
            } else if c == '\'' {
                seq!['&', 'a', 'p', 'o', 's', ';']
            } else if c == '"' {
                seq!['&', 'q', 'u', 'o', 't', ';']
            } else if c == '<' {
                seq!['&', 'l', 't', ';']
            } else if c == '>' {
                seq!['&', 'g', 't', ';']
            } else if is_ascii_control_char(c) {
                hex_entity(c)
            } else {
                seq![c]
            }
        },
        EntityMode::Hex => {
            if is_reserved_char(c) || is_ascii_control_char(c) {
                hex_entity(c)
            } else {
                seq![c]
            }
        },
    }
}

/// Entity escaping of a whole character sequence.
pub open spec fn escape_seq(s: Seq<char>, mode: EntityMode) -> Seq<char>
    decreases s.len(),
{
    if s.len() == 0 {
        Seq::empty()
    } else {
        escape_char(s[0], mode) + escape_seq(s.drop_first(), mode)
    }
}

/// Escaping distributes over appending one character at the end.
pub proof fn lemma_escape_push(s: Seq<char>, c: char, mode: EntityMode)
    ensures
        escape_seq(s.push(c), mode) == escape_seq(s, mode) + escape_char(c, mode),
    decreases s.len(),
{
    if s.len() == 0 {
        assert(s.push(c)[0] == c);
        assert(s.push(c).drop_first() =~= Seq::<char>::empty());
        assert(escape_seq(Seq::<char>::empty(), mode) =~= Seq::<char>::empty());
        assert(escape_seq(s.push(c), mode) == escape_char(c, mode) + escape_seq(
            s.push(c).drop_first(),
            mode,
        ));
        assert(escape_char(c, mode) + Seq::<char>::empty() =~= escape_char(c, mode));
        assert(escape_seq(s, mode) + escape_char(c, mode) =~= escape_char(c, mode));
    } else {
        assert(s.push(c)[0] == s[0]);
        assert(s.push(c).drop_first() =~= s.drop_first().push(c));
        lemma_escape_push(s.drop_first(), c, mode);
        assert(escape_char(s[0], mode) + (escape_seq(s.drop_first(), mode) + escape_char(c, mode))
            =~= (escape_char(s[0], mode) + escape_seq(s.drop_first(), mode)) + escape_char(
            c,
            mode,
        ));
    }
}

/// A character that escaped output must not contain: one of `<`, `>`, `'`,
/// `"`, or an ASCII control character. The ampersand is excluded, since it
/// is the first character of every entity the escaper emits.
pub open spec fn is_raw_markup_char(c: char) -> bool {
    c == '<' || c == '>' || c == '\'' || c == '"' || is_ascii_control_char(c)
}

proof fn lemma_hex_digit_clean(d: int)
    ensures
        !is_raw_markup_char(hex_digit_char(d)),
        hex_digit_char(d) != '&',
{
}

proof fn lemma_escape_char_clean(c: char, mode: EntityMode)
    ensures
        forall|j: int|
            0 <= j < escape_char(c, mode).len() ==> !is_raw_markup_char(escape_char(c, mode)[j]),
{
    let e = escape_char(c, mode);
    if e == hex_entity(c) {
        lemma_hex_digit_clean((c as u32 as int / 0x1000) % 16);
        lemma_hex_digit_clean((c as u32 as int / 0x100) % 16);
        lemma_hex_digit_clean((c as u32 as int / 16) % 16);
        lemma_hex_digit_clean(c as u32 as int % 16);
        assert forall|j: int| 0 <= j < e.len() implies !is_raw_markup_char(e[j]) by {
            if j == 0 {
                assert(e[j] == '&');
            } else if j == 1 {
                assert(e[j] == '#');
            } else if j == 2 {
                assert(e[j] == 'x');
            } else if j == 7 {
                assert(e[j] == ';');
            } else {
                assert(e[j] == hex4(c as u32 as int)[j - 3]);
            }
        }
    }
}

/// Escaped output contains no literal `<`, `>`, `'`, `"`, and no ASCII
/// control character, in either mode. (Every `&` in the output begins an
/// entity; the ampersand itself is therefore not covered by this statement.)
pub proof fn lemma_escape_output_clean(s: Seq<char>, mode: EntityMode)
    ensures
        forall|i: int|
            0 <= i < escape_seq(s, mode).len() ==> !is_raw_markup_char(escape_seq(s, mode)[i]),
    decreases s.len(),
{
    if s.len() > 0 {
        let head = escape_char(s[0], mode);
        let tail = escape_seq(s.drop_first(), mode);
        lemma_escape_char_clean(s[0], mode);
        lemma_escape_output_clean(s.drop_first(), mode);
        assert forall|i: int| 0 <= i < escape_seq(s, mode).len() implies !is_raw_markup_char(
            escape_seq(s, mode)[i],
        ) by {
            if i < head.len() {
                assert(escape_seq(s, mode)[i] == head[i]);
            } else {
                assert(escape_seq(s, mode)[i] == tail[i - head.len()]);
            }
        }
    }
}

/// An entity begins at position `i` of `out`: one of the five named
/// entities, or a numeric hex entity `&#x....;`.
pub open spec fn entity_at(out: Seq<char>, i: int) -> bool {
    ||| (i + 5 <= out.len() && out.subrange(i, i + 5) == seq!['&', 'a', 'm', 'p', ';'])
    ||| (i + 6 <= out.len() && out.subrange(i, i + 6) == seq!['&', 'a', 'p', 'o', 's', ';'])
    ||| (i + 6 <= out.len() && out.subrange(i, i + 6) == seq!['&', 'q', 'u', 'o', 't', ';'])
    ||| (i + 4 <= out.len() && out.subrange(i, i + 4) == seq!['&', 'l', 't', ';'])
    ||| (i + 4 <= out.len() && out.subrange(i, i + 4) == seq!['&', 'g', 't', ';'])
    ||| (i + 8 <= out.len() && out.subrange(i, i + 3) == seq!['&', '#', 'x'] && out[i + 7] == ';')
}

proof fn lemma_escape_char_amp(c: char, mode: EntityMode)
    ensures
        forall|j: int| 1 <= j < escape_char(c, mode).len() ==> escape_char(c, mode)[j] != '&',
        escape_char(c, mode)[0] == '&' ==> entity_at(escape_char(c, mode), 0),
{
    let e = escape_char(c, mode);
    if e == hex_entity(c) {
        lemma_hex_digit_clean((c as u32 as int / 0x1000) % 16);
        lemma_hex_digit_clean((c as u32 as int / 0x100) % 16);
        lemma_hex_digit_clean((c as u32 as int / 16) % 16);
        lemma_hex_digit_clean(c as u32 as int % 16);
        assert forall|j: int| 1 <= j < e.len() implies e[j] != '&' by {
            if j == 1 {
                assert(e[j] == '#');
            } else if j == 2 {
                assert(e[j] == 'x');
            } else if j == 7 {
                assert(e[j] == ';');
            } else {
                assert(e[j] == hex4(c as u32 as int)[j - 3]);
            }
        }
        assert(e.subrange(0, 3) =~= seq!['&', '#', 'x']);
    } else if e.len() == 4 {
        assert(e.subrange(0, 4) =~= e);
    } else if e.len() == 5 {
        assert(e.subrange(0, 5) =~= e);
    } else if e.len() == 6 {
        assert(e.subrange(0, 6) =~= e);
    }
}

proof fn lemma_entity_at_head(head: Seq<char>, tail: Seq<char>)
    requires
        entity_at(head, 0),
    ensures
        entity_at(head + tail, 0),
{
    let out = head + tail;
    if 5 <= head.len() && head.subrange(0, 5) == seq!['&', 'a', 'm', 'p', ';'] {
        assert(out.subrange(0, 5) =~= head.subrange(0, 5));
    }
    if 6 <= head.len() && head.subrange(0, 6) == seq!['&', 'a', 'p', 'o', 's', ';'] {
        assert(out.subrange(0, 6) =~= head.subrange(0, 6));
    }
    if 6 <= head.len() && head.subrange(0, 6) == seq!['&', 'q', 'u', 'o', 't', ';'] {
        assert(out.subrange(0, 6) =~= head.subrange(0, 6));
    }
    if 4 <= head.len() && head.subrange(0, 4) == seq!['&', 'l', 't', ';'] {
        assert(out.subrange(0, 4) =~= head.subrange(0, 4));
    }
    if 4 <= head.len() && head.subrange(0, 4) == seq!['&', 'g', 't', ';'] {
        assert(out.subrange(0, 4) =~= head.subrange(0, 4));
    }
    if 8 <= head.len() && head.subrange(0, 3) == seq!['&', '#', 'x'] && head[7] == ';' {
        assert(out.subrange(0, 3) =~= head.subrange(0, 3));
        assert(out[7] == head[7]);
    }
}

proof fn lemma_entity_at_shift(head: Seq<char>, tail: Seq<char>, j: int)
    requires
        0 <= j < tail.len(),
        entity_at(tail, j),
    ensures
        entity_at(head + tail, head.len() + j),
{
    let out = head + tail;
    let h = head.len() as int;
    if j + 5 <= tail.len() && tail.subrange(j, j + 5) == seq!['&', 'a', 'm', 'p', ';'] {
        assert(out.subrange(h + j, h + j + 5) =~= tail.subrange(j, j + 5));
    }
    if j + 6 <= tail.len() && tail.subrange(j, j + 6) == seq!['&', 'a', 'p', 'o', 's', ';'] {
        assert(out.subrange(h + j, h + j + 6) =~= tail.subrange(j, j + 6));
    }
    if j + 6 <= tail.len() && tail.subrange(j, j + 6) == seq!['&', 'q', 'u', 'o', 't', ';'] {
        assert(out.subrange(h + j, h + j + 6) =~= tail.subrange(j, j + 6));
    }
    if j + 4 <= tail.len() && tail.subrange(j, j + 4) == seq!['&', 'l', 't', ';'] {
        assert(out.subrange(h + j, h + j + 4) =~= tail.subrange(j, j + 4));
    }
    if j + 4 <= tail.len() && tail.subrange(j, j + 4) == seq!['&', 'g', 't', ';'] {
        assert(out.subrange(h + j, h + j + 4) =~= tail.subrange(j, j + 4));
    }
    if j + 8 <= tail.len() && tail.subrange(j, j + 3) == seq!['&', '#', 'x'] && tail[j + 7] == ';' {
        assert(out.subrange(h + j, h + j + 3) =~= tail.subrange(j, j + 3));
        assert(out[h + j + 7] == tail[j + 7]);
    }
}

/// Every ampersand in escaped output begins an entity, in either mode:
/// together with `lemma_escape_output_clean`, escaped output contains no
/// reserved character in raw position.
pub proof fn lemma_escape_amp_begins_entity(s: Seq<char>, mode: EntityMode)
    ensures
        forall|i: int|
            0 <= i < escape_seq(s, mode).len() && escape_seq(s, mode)[i] == '&' ==> entity_at(
                escape_seq(s, mode),
                i,
            ),
    decreases s.len(),
{
    if s.len() > 0 {
        let head = escape_char(s[0], mode);
        let tail = escape_seq(s.drop_first(), mode);
        let out = escape_seq(s, mode);
        assert(out == head + tail);
        lemma_escape_char_amp(s[0], mode);
        lemma_escape_amp_begins_entity(s.drop_first(), mode);
        assert forall|i: int| 0 <= i < out.len() && out[i] == '&' implies entity_at(out, i) by {
            if i < head.len() {
                assert(out[i] == head[i]);
                if i == 0 {
                    lemma_entity_at_head(head, tail);
                } else {
                    assert(head[i] != '&');
                }
            } else {
                let j = i - head.len();
                assert(out[i] == tail[j]);
                assert(entity_at(tail, j));
                lemma_entity_at_shift(head, tail, j);
            }
        }
    }
}

/// A string with no reserved and no control characters escapes to itself, in
/// either mode.
pub proof fn lemma_escape_identity(s: Seq<char>, mode: EntityMode)
    requires
        forall|i: int|
            0 <= i < s.len() ==> !is_reserved_char(s[i]) && !is_ascii_control_char(s[i]),
    ensures
        escape_seq(s, mode) == s,
    decreases s.len(),
{
    if s.len() > 0 {
        assert(!is_reserved_char(s[0]) && !is_ascii_control_char(s[0]));
        assert(escape_char(s[0], mode) == seq![s[0]]);
        lemma_escape_identity(s.drop_first(), mode);
        assert(seq![s[0]] + s.drop_first() =~= s);
    }
}

/// The number of whitespace characters at the front of a sequence.
pub open spec fn leading_ws(s: Seq<char>) -> nat
    decreases s.len(),
{
    if s.len() == 0 {
        0
    } else if is_whitespace_char(s[0]) {
        1 + leading_ws(s.drop_first())
    } else {
        0
    }
}

/// The number of whitespace characters at the back of a sequence.
pub open spec fn trailing_ws(s: Seq<char>) -> nat
    decreases s.len(),
{
    if s.len() == 0 {
        0
    } else if is_whitespace_char(s[s.len() - 1]) {
        1 + trailing_ws(s.drop_last())
    } else {
        0
    }
}

/// The sequence with whitespace removed from both ends.
pub open spec fn trim_seq(s: Seq<char>) -> Seq<char> {
    if leading_ws(s) == s.len() {
        Seq::empty()
    } else {
        s.subrange(leading_ws(s) as int, s.len() - trailing_ws(s))
    }
}

proof fn lemma_leading_ws_from_scan(s: Seq<char>, i: int)
    requires
        0 <= i <= s.len(),
        forall|j: int| 0 <= j < i ==> is_whitespace_char(s[j]),
        i == s.len() || !is_whitespace_char(s[i]),
    ensures
        leading_ws(s) == i,
    decreases i,
{
    if i == 0 {
    } else {
        assert(is_whitespace_char(s[0]));
        lemma_leading_ws_from_scan(s.drop_first(), i - 1);
    }
}

proof fn lemma_trailing_ws_from_scan(s: Seq<char>, k: int)
    requires
        0 <= k <= s.len(),
        forall|j: int| k <= j < s.len() ==> is_whitespace_char(s[j]),
        k == 0 || !is_whitespace_char(s[k - 1]),
    ensures
        trailing_ws(s) == s.len() - k,
    decreases s.len() - k,
{
    if k == s.len() {
    } else {
        assert(is_whitespace_char(s[s.len() - 1]));
        lemma_trailing_ws_from_scan(s.drop_last(), k);
    }
}

fn char_is_reserved(c: char) -> (b: bool)
    ensures
        b == is_reserved_char(c),
{
    c == '<' || c == '>' || c == '\'' || c == '"' || c == '&'
}

fn char_is_control(c: char) -> (b: bool)
    ensures
        b == is_ascii_control_char(c),
{
    let u = c as u32;
    u < 0x20 || u == 0x7F
}

fn char_is_whitespace(c: char) -> (b: bool)
    ensures
        b == is_whitespace_char(c),
{
    let u = c as u32;
    u == 0x09 || u == 0x0A || u == 0x0B || u == 0x0C || u == 0x0D || u == 0x20 || u == 0x85 || u
        == 0xA0 || u == 0x1680 || (0x2000 <= u && u <= 0x200A) || u == 0x2028 || u == 0x2029 || u
        == 0x202F || u == 0x205F || u == 0x3000
}

/// Relies on `String::push`: appends exactly the given character.
#[verifier::external_body]
fn push_char(s: &mut String, c: char)
    ensures
        final(s)@ == old(s)@.push(c),
{
    s.push(c)
}

fn hex_digit(d: u32) -> (r: char)
    requires
        d < 16,
    ensures
        r == hex_digit_char(d as int),
{
    if d == 0 {
        '0'
    } else if d == 1 {
        '1'
    } else if d == 2 {
        '2'
    } else if d == 3 {
        '3'
    } else if d == 4 {
        '4'
    } else if d == 5 {
        '5'
    } else if d == 6 {
        '6'
    } else if d == 7 {
        '7'
    } else if d == 8 {
        '8'
    } else if d == 9 {
        '9'
    } else if d == 10 {
        'A'
    } else if d == 11 {
        'B'
    } else if d == 12 {
        'C'
    } else if d == 13 {
        'D'
    } else if d == 14 {
        'E'
    } else {
        'F'
    }
}

fn push_hex_entity(out: &mut String, c: char)
    requires
        (c as u32) < 0x10000,
    ensures
        final(out)@ == old(out)@ + hex_entity(c),
{
    proof {
        reveal_strlit("&#x");
        reveal_strlit(";");
        assert("&#x"@ =~= seq!['&', '#', 'x']);
        assert(";"@ =~= seq![';']);
    }
    out.append("&#x");
    let n = c as u32;
    let d0 = hex_digit((n / 0x1000) % 16);
    let d1 = hex_digit((n / 0x100) % 16);
    let d2 = hex_digit((n / 16) % 16);
    let d3 = hex_digit(n % 16);
    push_char(out, d0);
    push_char(out, d1);
    push_char(out, d2);
    push_char(out, d3);
    out.append(";");
    proof {
        assert(final(out)@ =~= old(out)@ + hex_entity(c));
    }
}

fn push_escaped_char(out: &mut String, c: char, mode: EntityMode)
    ensures
        final(out)@ == old(out)@ + escape_char(c, mode),
{
    match mode {
        EntityMode::Standard => {
            if c == '&' {
                proof {
                    reveal_strlit("&amp;");
                    assert("&amp;"@ =~= seq!['&', 'a', 'm', 'p', ';']);
                }
                out.append("&amp;");
            } else if c == '\'' {
                proof {
                    reveal_strlit("&apos;");
                    assert("&apos;"@ =~= seq!['&', 'a', 'p', 'o', 's', ';']);
                }
                out.append("&apos;");
            } else if c == '"' {
                proof {
                    reveal_strlit("&quot;");
                    assert("&quot;"@ =~= seq!['&', 'q', 'u', 'o', 't', ';']);
                }
                out.append("&quot;");
            } else if c == '<' {
                proof {
                    reveal_strlit("&lt;");
                    assert("&lt;"@ =~= seq!['&', 'l', 't', ';']);
                }
                out.append("&lt;");
            } else if c == '>' {
                proof {
                    reveal_strlit("&gt;");
                    assert("&gt;"@ =~= seq!['&', 'g', 't', ';']);
                }
                out.append("&gt;");
            } else if char_is_control(c) {
                push_hex_entity(out, c);
            } else {
                push_char(out, c);
                proof {
                    assert(old(out)@.push(c) =~= old(out)@ + seq![c]);
                }
            }
        },
        EntityMode::Hex => {
            if char_is_reserved(c) || char_is_control(c) {
                push_hex_entity(out, c);
            } else {
                push_char(out, c);
                proof {
                    assert(old(out)@.push(c) =~= old(out)@ + seq![c]);
                }
            }
        },
    }
}

/// Escapes a string for use as text content or an attribute value. Returns
/// the input unchanged (up to ownership) when it contains no reserved and no
/// control character; otherwise rebuilds it character by character.
pub fn process_entities(input: &str, mode: EntityMode) -> (r: String)
    ensures
        r@ == escape_seq(input@, mode),
{
    let n = input.unicode_len();
    let mut has_special = false;
    let mut i: usize = 0;
    while i < n
        invariant
            i <= n,
            n == input@.len(),
            !has_special ==> forall|j: int|
                0 <= j < i ==> !is_reserved_char(input@[j]) && !is_ascii_control_char(input@[j]),
        decreases n - i,
    {
        let c = input.get_char(i);
        if char_is_reserved(c) || char_is_control(c) {
            has_special = true;
        }
        i += 1;
    }
    if !has_special {
        proof {
            lemma_escape_identity(input@, mode);
        }
        return input.to_owned();
    }
    let mut out = String::new();
    let mut i: usize = 0;
    while i < n
        invariant
            i <= n,
            n == input@.len(),
            out@ == escape_seq(input@.take(i as int), mode),
        decreases n - i,
    {
        let c = input.get_char(i);
        proof {
            assert(input@.take(i as int).push(c) =~= input@.take(i as int + 1));
            lemma_escape_push(input@.take(i as int), c, mode);
        }
        push_escaped_char(&mut out, c, mode);
        i += 1;
    }
    proof {
        assert(input@.take(n as int) =~= input@);
    }
    out
}

/// Removes Unicode whitespace from both ends of a string.
pub fn trim_str<'a>(s: &'a str) -> (r: &'a str)
    ensures
        r@ == trim_seq(s@),
{
    let n = s.unicode_len();
    let mut start: usize = 0;
    while start < n && char_is_whitespace(s.get_char(start))
        invariant
            start <= n,
            n == s@.len(),
            forall|j: int| 0 <= j < start ==> is_whitespace_char(s@[j]),
        decreases n - start,
    {
        start += 1;
    }
    if start == n {
        proof {
            lemma_leading_ws_from_scan(s@, n as int);
            reveal_strlit("");
            assert(""@ =~= trim_seq(s@));
        }
        return "";
    }
    proof {
        lemma_leading_ws_from_scan(s@, start as int);
    }
    let mut end: usize = n;
    while char_is_whitespace(s.get_char(end - 1))
        invariant
            start < end <= n,
            n == s@.len(),
            !is_whitespace_char(s@[start as int]),
            forall|j: int| end <= j < n ==> is_whitespace_char(s@[j]),
        decreases end,
    {
        end -= 1;
    }
    proof {
        lemma_trailing_ws_from_scan(s@, end as int);
    }
    s.substring_char(start, end)
}

} // verus!
