//! JSON framing of the outbound request.
//!
//! The request body is written as `{"contents":[...]}` with one
//! `{"role":"...","parts":[{"text":"..."},...]}` object per content
//! entry, without any whitespace. Inside a string literal, the quote
//! and the backslash take a backslash escape, every control character
//! takes the six-character `\u00XX` form, and every other character
//! stands as it is; so the output is well-formed JSON for every input.

use vstd::prelude::*;

use crate::request::{request_matches_history, Chat, GeminiContent, GeminiPart, GeminiRequest};

verus! {

/// The lower-case hexadecimal digit of a value below sixteen.
pub open spec fn hex_digit_char(n: u8) -> char {
    if n == 0 {
        '0'
    } else if n == 1 {
        '1'
    } else if n == 2 {
        '2'
    } else if n == 3 {
        '3'
    } else if n == 4 {
        '4'
    } else if n == 5 {
        '5'
    } else if n == 6 {
        '6'
    } else if n == 7 {
        '7'
    } else if n == 8 {
        '8'
    } else if n == 9 {
        '9'
    } else if n == 10 {
        'a'
    } else if n == 11 {
        'b'
    } else if n == 12 {
        'c'
    } else if n == 13 {
        'd'
    } else if n == 14 {
        'e'
    } else {
        'f'
    }
}

/// How one character is written inside a JSON string literal.
pub open spec fn escaped_char(c: char) -> Seq<char> {
    if c == '"' {
        seq!['\\', '"']
    } else if c == '\\' {
        seq!['\\', '\\']
    } else if (c as u32) < 0x20 {
        seq![
            '\\',
            'u',
            '0',
            '0',
            hex_digit_char((c as u32 / 16) as u8),
            hex_digit_char((c as u32 % 16) as u8),
        ]
    } else {
        seq![c]
    }
}

/// The body of a JSON string literal: each character escaped in turn.
pub open spec fn escaped(s: Seq<char>) -> Seq<char>
    decreases s.len(),
{
    if s.len() == 0 {
        Seq::empty()
    } else {
        escaped_char(s[0]) + escaped(s.drop_first())
    }
}

/// A whole JSON string literal, quotes included.
pub open spec fn quoted(s: Seq<char>) -> Seq<char> {
    seq!['"'] + escaped(s) + seq!['"']
}

/// One part object.
pub open spec fn part_json(p: GeminiPart) -> Seq<char> {
    "{\"text\":"@ + quoted(p.text@) + "}"@
}

/// Every part after the first, each preceded by a comma.
pub open spec fn parts_rest_json(ps: Seq<GeminiPart>) -> Seq<char>
    decreases ps.len(),
{
    if ps.len() == 0 {
        Seq::empty()
    } else {
        ","@ + part_json(ps[0]) + parts_rest_json(ps.drop_first())
    }
}

/// A comma-separated list of part objects, brackets not included.
pub open spec fn parts_list_json(ps: Seq<GeminiPart>) -> Seq<char> {
    if ps.len() == 0 {
        Seq::empty()
    } else {
        part_json(ps[0]) + parts_rest_json(ps.drop_first())
    }
}

/// One content object.
pub open spec fn content_json(c: GeminiContent) -> Seq<char> {
    "{\"role\":"@ + quoted(c.role@) + ",\"parts\":["@ + parts_list_json(c.parts@) + "]}"@
}

/// Every content entry after the first, each preceded by a comma.
pub open spec fn contents_rest_json(cs: Seq<GeminiContent>) -> Seq<char>
    decreases cs.len(),
{
    if cs.len() == 0 {
        Seq::empty()
    } else {
        ","@ + content_json(cs[0]) + contents_rest_json(cs.drop_first())
    }
}

/// A comma-separated list of content objects, brackets not included.
pub open spec fn contents_list_json(cs: Seq<GeminiContent>) -> Seq<char> {
    if cs.len() == 0 {
        Seq::empty()
    } else {
        content_json(cs[0]) + contents_rest_json(cs.drop_first())
    }
}

/// The whole request body.
pub open spec fn request_json(r: GeminiRequest) -> Seq<char> {
    "{\"contents\":["@ + contents_list_json(r.contents@) + "]}"@
}

/// The value of a lower-case hexadecimal digit, if the character is one.
pub open spec fn hex_value(c: char) -> Option<u8> {
    if c == '0' {
        Some(0)
    } else if c == '1' {
        Some(1)
    } else if c == '2' {
        Some(2)
    } else if c == '3' {
        Some(3)
    } else if c == '4' {
        Some(4)
    } else if c == '5' {
        Some(5)
    } else if c == '6' {
        Some(6)
    } else if c == '7' {
        Some(7)
    } else if c == '8' {
        Some(8)
    } else if c == '9' {
        Some(9)
    } else if c == 'a' {
        Some(10)
    } else if c == 'b' {
        Some(11)
    } else if c == 'c' {
        Some(12)
    } else if c == 'd' {
        Some(13)
    } else if c == 'e' {
        Some(14)
    } else if c == 'f' {
        Some(15)
    } else {
        None
    }
}

/// Reads the body of a JSON string literal up to its closing quote, as
/// [`escaped`] writes it: a backslash introduces `\"`, `\\` or `\u00XX`,
/// a bare quote ends the body, and any other character stands for
/// itself. Yields the decoded characters and what follows the quote.
pub open spec fn parse_string_body(s: Seq<char>) -> Option<(Seq<char>, Seq<char>)>
    decreases s.len(),
{
    if s.len() == 0 {
        None
    } else if s[0] == '"' {
        Some((Seq::empty(), s.skip(1)))
    } else if s[0] == '\\' {
        if s.len() >= 2 && s[1] == '"' {
            match parse_string_body(s.skip(2)) {
                Some((t, r)) => Some((seq!['"'] + t, r)),
                None => None,
            }
        } else if s.len() >= 2 && s[1] == '\\' {
            match parse_string_body(s.skip(2)) {
                Some((t, r)) => Some((seq!['\\'] + t, r)),
                None => None,
            }
        } else if s.len() >= 6 && s[1] == 'u' && s[2] == '0' && s[3] == '0' {
            match (hex_value(s[4]), hex_value(s[5])) {
                (Some(hi), Some(lo)) => match parse_string_body(s.skip(6)) {
                    Some((t, r)) => Some((seq![((hi * 16 + lo) as u32) as char] + t, r)),
                    None => None,
                },
                _ => None,
            }
        } else {
            None
        }
    } else {
        match parse_string_body(s.drop_first()) {
            Some((t, r)) => Some((seq![s[0]] + t, r)),
            None => None,
        }
    }
}

/// Reads a whole JSON string literal, quotes included.
pub open spec fn parse_qstring(s: Seq<char>) -> Option<(Seq<char>, Seq<char>)> {
    if s.len() >= 1 && s[0] == '"' {
        parse_string_body(s.skip(1))
    } else {
        None
    }
}

/// Law: the string escaping is lossless. Reading a literal body as
/// [`escaped`] wrote it gives back exactly the original characters and
/// stops exactly at the closing quote.
pub proof fn lemma_escaped_round_trip(s: Seq<char>, rest: Seq<char>)
    ensures
        parse_string_body(escaped(s) + (seq!['"'] + rest)) == Some((s, rest)),
    decreases s.len(),
{
    let e = escaped(s) + (seq!['"'] + rest);
    if s.len() == 0 {
        assert(e[0] == '"');
        assert(e.skip(1) =~= rest);
        assert(s =~= Seq::<char>::empty());
    } else {
        let c = s[0];
        let tail = s.drop_first();
        lemma_escaped_round_trip(tail, rest);
        assert(escaped(s) == escaped_char(c) + escaped(tail));
        assert(e =~= escaped_char(c) + (escaped(tail) + (seq!['"'] + rest)));
        if c == '"' {
            assert(e[0] == '\\');
            assert(e[1] == '"');
            assert(e.skip(2) =~= escaped(tail) + (seq!['"'] + rest));
            assert(seq!['"'] + tail =~= s);
        } else if c == '\\' {
            assert(e[0] == '\\');
            assert(e[1] == '\\');
            assert(e.skip(2) =~= escaped(tail) + (seq!['"'] + rest));
            assert(seq!['\\'] + tail =~= s);
        } else if (c as u32) < 0x20 {
            let code = c as u32;
            let hi = (code / 16) as u8;
            let lo = (code % 16) as u8;
            assert(e[0] == '\\');
            assert(e[1] == 'u');
            assert(e[2] == '0');
            assert(e[3] == '0');
            assert(e[4] == hex_digit_char(hi));
            assert(e[5] == hex_digit_char(lo));
            assert(hex_value(hex_digit_char(hi)) == Some(hi));
            assert(hex_value(hex_digit_char(lo)) == Some(lo));
            assert(e.skip(6) =~= escaped(tail) + (seq!['"'] + rest));
            assert(hi * 16 + lo == code);
            assert((hi * 16 + lo) as u32 == code);
            vstd::utf8::char_u32_cast(c, code);
            assert(((hi * 16 + lo) as u32) as char == c);
            assert(seq![c] + tail =~= s);
        } else {
            assert(e[0] == c);
            assert(e.drop_first() =~= escaped(tail) + (seq!['"'] + rest));
            assert(seq![c] + tail =~= s);
        }
    }
}

/// Law: a quoted literal written by the framing reads back as exactly
/// the original characters, with the rest of the input untouched.
pub proof fn lemma_quoted_round_trip(s: Seq<char>, rest: Seq<char>)
    ensures
        parse_qstring(quoted(s) + rest) == Some((s, rest)),
{
    let q = quoted(s) + rest;
    assert(q[0] == '"');
    assert(q.skip(1) =~= escaped(s) + (seq!['"'] + rest));
    lemma_escaped_round_trip(s, rest);
}

/// Consumes an expected literal prefix, or fails.
pub open spec fn expect(s: Seq<char>, prefix: Seq<char>) -> Option<Seq<char>> {
    if s.len() >= prefix.len() && s.take(prefix.len() as int) == prefix {
        Some(s.skip(prefix.len() as int))
    } else {
        None
    }
}

proof fn lemma_expect_concat(prefix: Seq<char>, rest: Seq<char>)
    ensures
        expect(prefix + rest, prefix) == Some(rest),
{
    assert((prefix + rest).take(prefix.len() as int) =~= prefix);
    assert((prefix + rest).skip(prefix.len() as int) =~= rest);
}

/// Reads one part object, yielding its text.
pub open spec fn parse_part(s: Seq<char>) -> Option<(Seq<char>, Seq<char>)> {
    match expect(s, "{\"text\":"@) {
        Some(s1) => match parse_qstring(s1) {
            Some((text, s2)) => match expect(s2, "}"@) {
                Some(s3) => Some((text, s3)),
                None => None,
            },
            None => None,
        },
        None => None,
    }
}

proof fn lemma_part_round_trip(p: GeminiPart, rest: Seq<char>)
    ensures
        parse_part(part_json(p) + rest) == Some((p.text@, rest)),
{
    assert(part_json(p) + rest =~= "{\"text\":"@ + (quoted(p.text@) + ("}"@ + rest)));
    lemma_expect_concat("{\"text\":"@, quoted(p.text@) + ("}"@ + rest));
    lemma_quoted_round_trip(p.text@, "}"@ + rest);
    lemma_expect_concat("}"@, rest);
}

/// Reads the parts after the first, each preceded by a comma, stopping
/// at the first character that is no comma. `fuel` only bounds the
/// recursion; any value at least the number of elements is enough.
pub open spec fn parse_parts_rest(s: Seq<char>, fuel: nat) -> Option<(Seq<Seq<char>>, Seq<char>)>
    decreases fuel,
{
    if s.len() >= 1 && s[0] == ',' {
        if fuel == 0 {
            None
        } else {
            match parse_part(s.skip(1)) {
                Some((text, r)) => match parse_parts_rest(r, (fuel - 1) as nat) {
                    Some((texts, r2)) => Some((seq![text] + texts, r2)),
                    None => None,
                },
                None => None,
            }
        }
    } else {
        Some((Seq::empty(), s))
    }
}

/// Reads a comma-separated list of part objects, stopping at `]`.
pub open spec fn parse_parts_list(s: Seq<char>, fuel: nat) -> Option<(Seq<Seq<char>>, Seq<char>)> {
    if s.len() >= 1 && s[0] == ']' {
        Some((Seq::empty(), s))
    } else {
        match parse_part(s) {
            Some((text, r)) => match parse_parts_rest(r, fuel) {
                Some((texts, r2)) => Some((seq![text] + texts, r2)),
                None => None,
            },
            None => None,
        }
    }
}

/// The texts of a part list, in order.
pub open spec fn part_texts(ps: Seq<GeminiPart>) -> Seq<Seq<char>> {
    ps.map_values(|p: GeminiPart| p.text@)
}

proof fn lemma_parts_rest_round_trip(ps: Seq<GeminiPart>, rest: Seq<char>, fuel: nat)
    requires
        fuel >= ps.len(),
        rest.len() == 0 || rest[0] != ',',
    ensures
        parse_parts_rest(parts_rest_json(ps) + rest, fuel) == Some((part_texts(ps), rest)),
    decreases ps.len(),
{
    let s = parts_rest_json(ps) + rest;
    if ps.len() == 0 {
        assert(s =~= rest);
        assert(part_texts(ps) =~= Seq::<Seq<char>>::empty());
    } else {
        reveal_strlit(",");
        assert(s =~= ","@ + (part_json(ps[0]) + (parts_rest_json(ps.drop_first()) + rest)));
        assert(s[0] == ',');
        assert(s.skip(1) =~= part_json(ps[0]) + (parts_rest_json(ps.drop_first()) + rest));
        lemma_part_round_trip(ps[0], parts_rest_json(ps.drop_first()) + rest);
        lemma_parts_rest_round_trip(ps.drop_first(), rest, (fuel - 1) as nat);
        assert(seq![ps[0].text@] + part_texts(ps.drop_first()) =~= part_texts(ps));
    }
}

proof fn lemma_parts_list_round_trip(ps: Seq<GeminiPart>, rest: Seq<char>, fuel: nat)
    requires
        fuel >= ps.len(),
        rest.len() >= 1,
        rest[0] == ']',
    ensures
        parse_parts_list(parts_list_json(ps) + rest, fuel) == Some((part_texts(ps), rest)),
{
    let s = parts_list_json(ps) + rest;
    if ps.len() == 0 {
        assert(s =~= rest);
        assert(part_texts(ps) =~= Seq::<Seq<char>>::empty());
    } else {
        reveal_strlit("{\"text\":");
        assert(s =~= part_json(ps[0]) + (parts_rest_json(ps.drop_first()) + rest));
        assert(part_json(ps[0])[0] == '{');
        assert(s[0] == '{');
        lemma_part_round_trip(ps[0], parts_rest_json(ps.drop_first()) + rest);
        lemma_parts_rest_round_trip(ps.drop_first(), rest, fuel);
        assert(seq![ps[0].text@] + part_texts(ps.drop_first()) =~= part_texts(ps));
    }
}

proof fn lemma_parts_rest_json_len(ps: Seq<GeminiPart>)
    ensures
        parts_rest_json(ps).len() >= ps.len(),
    decreases ps.len(),
{
    if ps.len() != 0 {
        assert(part_json(ps[0]).len() >= 2);
        lemma_parts_rest_json_len(ps.drop_first());
    }
}

proof fn lemma_parts_list_json_len(ps: Seq<GeminiPart>)
    ensures
        parts_list_json(ps).len() >= ps.len(),
{
    if ps.len() != 0 {
        assert(part_json(ps[0]).len() >= 2);
        lemma_parts_rest_json_len(ps.drop_first());
    }
}

/// Reads one content object, yielding its role and its texts. The
/// recursion bound handed to the part list is the remaining input
/// length, which is always enough.
pub open spec fn parse_content(s: Seq<char>) -> Option<((Seq<char>, Seq<Seq<char>>), Seq<char>)> {
    match expect(s, "{\"role\":"@) {
        Some(s1) => match parse_qstring(s1) {
            Some((role, s2)) => match expect(s2, ",\"parts\":["@) {
                Some(s3) => match parse_parts_list(s3, s3.len()) {
                    Some((texts, s4)) => match expect(s4, "]}"@) {
                        Some(s5) => Some(((role, texts), s5)),
                        None => None,
                    },
                    None => None,
                },
                None => None,
            },
            None => None,
        },
        None => None,
    }
}

proof fn lemma_content_round_trip(c: GeminiContent, rest: Seq<char>)
    ensures
        parse_content(content_json(c) + rest) == Some(((c.role@, part_texts(c.parts@)), rest)),
{
    let after_parts = "]}"@ + rest;
    let s3 = parts_list_json(c.parts@) + after_parts;
    let s1 = quoted(c.role@) + (",\"parts\":["@ + s3);
    assert(content_json(c) + rest =~= "{\"role\":"@ + s1);
    lemma_expect_concat("{\"role\":"@, s1);
    lemma_quoted_round_trip(c.role@, ",\"parts\":["@ + s3);
    lemma_expect_concat(",\"parts\":["@, s3);
    lemma_parts_list_json_len(c.parts@);
    reveal_strlit("]}");
    assert(after_parts.len() >= 1);
    assert(after_parts[0] == ']');
    lemma_parts_list_round_trip(c.parts@, after_parts, s3.len());
    lemma_expect_concat("]}"@, rest);
}

/// Reads the content entries after the first, each preceded by a
/// comma, stopping at the first character that is no comma.
pub open spec fn parse_contents_rest(s: Seq<char>, fuel: nat) -> Option<
    (Seq<(Seq<char>, Seq<Seq<char>>)>, Seq<char>),
>
    decreases fuel,
{
    if s.len() >= 1 && s[0] == ',' {
        if fuel == 0 {
            None
        } else {
            match parse_content(s.skip(1)) {
                Some((entry, r)) => match parse_contents_rest(r, (fuel - 1) as nat) {
                    Some((entries, r2)) => Some((seq![entry] + entries, r2)),
                    None => None,
                },
                None => None,
            }
        }
    } else {
        Some((Seq::empty(), s))
    }
}

/// Reads a comma-separated list of content objects, stopping at `]`.
pub open spec fn parse_contents_list(s: Seq<char>, fuel: nat) -> Option<
    (Seq<(Seq<char>, Seq<Seq<char>>)>, Seq<char>),
> {
    if s.len() >= 1 && s[0] == ']' {
        Some((Seq::empty(), s))
    } else {
        match parse_content(s) {
            Some((entry, r)) => match parse_contents_rest(r, fuel) {
                Some((entries, r2)) => Some((seq![entry] + entries, r2)),
                None => None,
            },
            None => None,
        }
    }
}

/// The entries of a content list: each content's role and its texts.
pub open spec fn content_entries(cs: Seq<GeminiContent>) -> Seq<(Seq<char>, Seq<Seq<char>>)> {
    cs.map_values(|c: GeminiContent| (c.role@, part_texts(c.parts@)))
}

proof fn lemma_contents_rest_round_trip(cs: Seq<GeminiContent>, rest: Seq<char>, fuel: nat)
    requires
        fuel >= cs.len(),
        rest.len() == 0 || rest[0] != ',',
    ensures
        parse_contents_rest(contents_rest_json(cs) + rest, fuel) == Some((content_entries(cs), rest)),
    decreases cs.len(),
{
    let s = contents_rest_json(cs) + rest;
    if cs.len() == 0 {
        assert(s =~= rest);
        assert(content_entries(cs) =~= Seq::<(Seq<char>, Seq<Seq<char>>)>::empty());
    } else {
        reveal_strlit(",");
        assert(s =~= ","@ + (content_json(cs[0]) + (contents_rest_json(cs.drop_first()) + rest)));
        assert(s[0] == ',');
        assert(s.skip(1) =~= content_json(cs[0]) + (contents_rest_json(cs.drop_first()) + rest));
        lemma_content_round_trip(cs[0], contents_rest_json(cs.drop_first()) + rest);
        lemma_contents_rest_round_trip(cs.drop_first(), rest, (fuel - 1) as nat);
        assert(seq![(cs[0].role@, part_texts(cs[0].parts@))] + content_entries(cs.drop_first())
            =~= content_entries(cs));
    }
}

#[verifier::rlimit(40)]
proof fn lemma_contents_list_round_trip(cs: Seq<GeminiContent>, rest: Seq<char>, fuel: nat)
    requires
        fuel >= cs.len(),
        rest.len() >= 1,
        rest[0] == ']',
    ensures
        parse_contents_list(contents_list_json(cs) + rest, fuel) == Some((content_entries(cs), rest)),
{
    let s = contents_list_json(cs) + rest;
    if cs.len() == 0 {
        assert(s =~= rest);
        assert(content_entries(cs) =~= Seq::<(Seq<char>, Seq<Seq<char>>)>::empty());
    } else {
        reveal_strlit("{\"role\":");
        assert(s =~= content_json(cs[0]) + (contents_rest_json(cs.drop_first()) + rest));
        assert(content_json(cs[0])[0] == '{');
        assert(s[0] == '{');
        lemma_content_round_trip(cs[0], contents_rest_json(cs.drop_first()) + rest);
        lemma_contents_rest_round_trip(cs.drop_first(), rest, fuel);
        assert(seq![(cs[0].role@, part_texts(cs[0].parts@))] + content_entries(cs.drop_first())
            =~= content_entries(cs));
    }
}

proof fn lemma_contents_rest_json_len(cs: Seq<GeminiContent>)
    ensures
        contents_rest_json(cs).len() >= cs.len(),
    decreases cs.len(),
{
    if cs.len() != 0 {
        assert(content_json(cs[0]).len() >= 2);
        lemma_contents_rest_json_len(cs.drop_first());
    }
}

proof fn lemma_contents_list_json_len(cs: Seq<GeminiContent>)
    ensures
        contents_list_json(cs).len() >= cs.len(),
{
    if cs.len() != 0 {
        assert(content_json(cs[0]).len() >= 2);
        lemma_contents_rest_json_len(cs.drop_first());
    }
}

/// Reads a whole request document, which must be consumed entirely.
pub open spec fn parse_request(s: Seq<char>) -> Option<Seq<(Seq<char>, Seq<Seq<char>>)>> {
    match expect(s, "{\"contents\":["@) {
        Some(s1) => match parse_contents_list(s1, s1.len()) {
            Some((entries, s2)) => match expect(s2, "]}"@) {
                Some(s3) => if s3.len() == 0 {
                    Some(entries)
                } else {
                    None
                },
                None => None,
            },
            None => None,
        },
        None => None,
    }
}

/// Law: the framing is lossless. Reading back the framed request
/// document yields exactly its content entries — every role and every
/// part text, in their original order.
pub proof fn lemma_request_json_round_trip(r: GeminiRequest)
    ensures
        parse_request(request_json(r)) == Some(content_entries(r.contents@)),
{
    let tail = contents_list_json(r.contents@) + "]}"@;
    assert(request_json(r) =~= "{\"contents\":["@ + tail);
    lemma_expect_concat("{\"contents\":["@, tail);
    lemma_contents_list_json_len(r.contents@);
    reveal_strlit("]}");
    lemma_contents_list_round_trip(r.contents@, "]}"@, tail.len());
    assert(("]}"@).take(("]}"@).len() as int) =~= "]}"@);
    assert(("]}"@).skip(("]}"@).len() as int) =~= Seq::<char>::empty());
}

/// Law: serializing a conversation history and reading the document
/// back yields one content entry per turn, in the original order, with
/// each turn's role and text preserved exactly.
pub proof fn lemma_history_round_trip(request: GeminiRequest, history: Seq<Chat>)
    requires
        request_matches_history(request, history),
    ensures
        ({
            let parsed = parse_request(request_json(request));
            &&& parsed is Some
            &&& parsed matches Some(entries) ==> {
                &&& entries.len() == history.len()
                &&& forall|i: int|
                    0 <= i < history.len() ==> #[trigger] entries[i] == (
                        history[i].role@,
                        seq![history[i].content@],
                    )
            }
        }),
{
    lemma_request_json_round_trip(request);
    let entries = content_entries(request.contents@);
    assert forall|i: int| 0 <= i < history.len() implies #[trigger] entries[i] == (
        history[i].role@,
        seq![history[i].content@],
    ) by {
        assert(part_texts(request.contents@[i].parts@) =~= seq![history[i].content@]);
    }
}

proof fn lemma_escaped_snoc(s: Seq<char>, c: char)
    ensures
        escaped(s.push(c)) == escaped(s) + escaped_char(c),
    decreases s.len(),
{
    if s.len() == 0 {
        assert(s.push(c)[0] == c);
        assert(s.push(c).drop_first() =~= Seq::<char>::empty());
        assert(escaped(Seq::<char>::empty()) =~= Seq::<char>::empty());
        assert(escaped(s.push(c)) =~= escaped(s) + escaped_char(c));
    } else {
        assert(s.push(c)[0] == s[0]);
        assert(s.push(c).drop_first() =~= s.drop_first().push(c));
        lemma_escaped_snoc(s.drop_first(), c);
        assert(escaped(s.push(c)) =~= escaped(s) + escaped_char(c));
    }
}

proof fn lemma_parts_rest_snoc(ps: Seq<GeminiPart>, p: GeminiPart)
    ensures
        parts_rest_json(ps.push(p)) == parts_rest_json(ps) + (","@ + part_json(p)),
    decreases ps.len(),
{
    if ps.len() == 0 {
        assert(ps.push(p)[0] == p);
        assert(ps.push(p).drop_first() =~= Seq::<GeminiPart>::empty());
        assert(parts_rest_json(Seq::<GeminiPart>::empty()) =~= Seq::<char>::empty());
        assert(parts_rest_json(ps.push(p)) =~= parts_rest_json(ps) + (","@ + part_json(p)));
    } else {
        assert(ps.push(p)[0] == ps[0]);
        assert(ps.push(p).drop_first() =~= ps.drop_first().push(p));
        lemma_parts_rest_snoc(ps.drop_first(), p);
        assert(parts_rest_json(ps.push(p)) =~= parts_rest_json(ps) + (","@ + part_json(p)));
    }
}

proof fn lemma_parts_list_snoc(ps: Seq<GeminiPart>, p: GeminiPart)
    requires
        ps.len() >= 1,
    ensures
        parts_list_json(ps.push(p)) == parts_list_json(ps) + (","@ + part_json(p)),
{
    assert(ps.push(p)[0] == ps[0]);
    assert(ps.push(p).drop_first() =~= ps.drop_first().push(p));
    lemma_parts_rest_snoc(ps.drop_first(), p);
    assert(parts_list_json(ps.push(p)) =~= parts_list_json(ps) + (","@ + part_json(p)));
}

proof fn lemma_contents_rest_snoc(cs: Seq<GeminiContent>, c: GeminiContent)
    ensures
        contents_rest_json(cs.push(c)) == contents_rest_json(cs) + (","@ + content_json(c)),
    decreases cs.len(),
{
    if cs.len() == 0 {
        assert(cs.push(c)[0] == c);
        assert(cs.push(c).drop_first() =~= Seq::<GeminiContent>::empty());
        assert(contents_rest_json(Seq::<GeminiContent>::empty()) =~= Seq::<char>::empty());
        assert(contents_rest_json(cs.push(c)) =~= contents_rest_json(cs) + (","@ + content_json(
            c,
        )));
    } else {
        assert(cs.push(c)[0] == cs[0]);
        assert(cs.push(c).drop_first() =~= cs.drop_first().push(c));
        lemma_contents_rest_snoc(cs.drop_first(), c);
        assert(contents_rest_json(cs.push(c)) =~= contents_rest_json(cs) + (","@ + content_json(
            c,
        )));
    }
}

proof fn lemma_contents_list_snoc(cs: Seq<GeminiContent>, c: GeminiContent)
    requires
        cs.len() >= 1,
    ensures
        contents_list_json(cs.push(c)) == contents_list_json(cs) + (","@ + content_json(c)),
{
    assert(cs.push(c)[0] == cs[0]);
    assert(cs.push(c).drop_first() =~= cs.drop_first().push(c));
    lemma_contents_rest_snoc(cs.drop_first(), c);
    assert(contents_list_json(cs.push(c)) =~= contents_list_json(cs) + (","@ + content_json(c)));
}

fn hex_digit_str(n: u8) -> (r: &'static str)
    requires
        n < 16,
    ensures
        r@ == seq![hex_digit_char(n)],
{
    if n == 0 {
        proof {
            reveal_strlit("0");
            assert("0"@ =~= seq![hex_digit_char(n)]);
        }
        "0"
    } else if n == 1 {
        proof {
            reveal_strlit("1");
            assert("1"@ =~= seq![hex_digit_char(n)]);
        }
        "1"
    } else if n == 2 {
        proof {
            reveal_strlit("2");
            assert("2"@ =~= seq![hex_digit_char(n)]);
        }
        "2"
    } else if n == 3 {
        proof {
            reveal_strlit("3");
            assert("3"@ =~= seq![hex_digit_char(n)]);
        }
        "3"
    } else if n == 4 {
        proof {
            reveal_strlit("4");
            assert("4"@ =~= seq![hex_digit_char(n)]);
        }
        "4"
    } else if n == 5 {
        proof {
            reveal_strlit("5");
            assert("5"@ =~= seq![hex_digit_char(n)]);
        }
        "5"
    } else if n == 6 {
        proof {
            reveal_strlit("6");
            assert("6"@ =~= seq![hex_digit_char(n)]);
        }
        "6"
    } else if n == 7 {
        proof {
            reveal_strlit("7");
            assert("7"@ =~= seq![hex_digit_char(n)]);
        }
        "7"
    } else if n == 8 {
        proof {
            reveal_strlit("8");
            assert("8"@ =~= seq![hex_digit_char(n)]);
        }
        "8"
    } else if n == 9 {
        proof {
            reveal_strlit("9");
            assert("9"@ =~= seq![hex_digit_char(n)]);
        }
        "9"
    } else if n == 10 {
        proof {
            reveal_strlit("a");
            assert("a"@ =~= seq![hex_digit_char(n)]);
        }
        "a"
    } else if n == 11 {
        proof {
            reveal_strlit("b");
            assert("b"@ =~= seq![hex_digit_char(n)]);
        }
        "b"
    } else if n == 12 {
        proof {
            reveal_strlit("c");
            assert("c"@ =~= seq![hex_digit_char(n)]);
        }
        "c"
    } else if n == 13 {
        proof {
            reveal_strlit("d");
            assert("d"@ =~= seq![hex_digit_char(n)]);
        }
        "d"
    } else if n == 14 {
        proof {
            reveal_strlit("e");
            assert("e"@ =~= seq![hex_digit_char(n)]);
        }
        "e"
    } else {
        proof {
            reveal_strlit("f");
            assert("f"@ =~= seq![hex_digit_char(n)]);
        }
        "f"
    }
}

#[verifier::loop_isolation(false)]
fn append_escaped(out: &mut String, s: &str)
    ensures
        final(out)@ == old(out)@ + escaped(s@),
{
    let n: usize = s.unicode_len();
    proof {
        assert(s@.take(0) =~= Seq::<char>::empty());
        assert(out@ =~= old(out)@ + escaped(s@.take(0)));
    }
    let mut i: usize = 0;
    while i < n
        invariant
            i <= n,
            out@ == old(out)@ + escaped(s@.take(i as int)),
        decreases n - i,
    {
        let c = s.get_char(i);
        proof {
            lemma_escaped_snoc(s@.take(i as int), s@[i as int]);
            assert(s@.take(i as int + 1) =~= s@.take(i as int).push(s@[i as int]));
        }
        if c == '"' {
            out.append("\\\"");
            proof {
                reveal_strlit("\\\"");
                assert("\\\""@ =~= escaped_char(c));
            }
        } else if c == '\\' {
            out.append("\\\\");
            proof {
                reveal_strlit("\\\\");
                assert("\\\\"@ =~= escaped_char(c));
            }
        } else if (c as u32) < 0x20 {
            let code: u32 = c as u32;
            out.append("\\u00");
            out.append(hex_digit_str((code / 16) as u8));
            out.append(hex_digit_str((code % 16) as u8));
            proof {
                reveal_strlit("\\u00");
                assert("\\u00"@ + seq![hex_digit_char((code / 16) as u8)] + seq![
                    hex_digit_char((code % 16) as u8),
                ] =~= escaped_char(c));
            }
        } else {
            let piece = s.substring_char(i, i + 1);
            out.append(piece);
            proof {
                assert(piece@ =~= escaped_char(c));
            }
        }
        proof {
            assert(out@ =~= old(out)@ + escaped(s@.take(i as int + 1)));
        }
        i = i + 1;
    }
    proof {
        assert(s@.take(n as int) =~= s@);
    }
}

fn append_quoted(out: &mut String, s: &str)
    ensures
        final(out)@ == old(out)@ + quoted(s@),
{
    out.append("\"");
    append_escaped(out, s);
    out.append("\"");
    proof {
        reveal_strlit("\"");
        assert("\""@ =~= seq!['"']);
        assert(out@ =~= old(out)@ + quoted(s@));
    }
}

fn append_part(out: &mut String, p: &GeminiPart)
    ensures
        final(out)@ == old(out)@ + part_json(*p),
{
    out.append("{\"text\":");
    append_quoted(out, p.text.as_str());
    out.append("}");
    proof {
        assert(out@ =~= old(out)@ + part_json(*p));
    }
}

#[verifier::loop_isolation(false)]
fn append_parts(out: &mut String, parts: &Vec<GeminiPart>)
    ensures
        final(out)@ == old(out)@ + parts_list_json(parts@),
{
    let n: usize = parts.len();
    if n == 0 {
        proof {
            assert(out@ =~= old(out)@ + parts_list_json(parts@));
        }
        return ;
    }
    append_part(out, &parts[0]);
    proof {
        assert(parts@.take(1)[0] == parts@[0]);
        assert(parts@.take(1).drop_first() =~= Seq::<GeminiPart>::empty());
        assert(out@ =~= old(out)@ + parts_list_json(parts@.take(1)));
    }
    let mut i: usize = 1;
    while i < n
        invariant
            1 <= i <= n,
            out@ == old(out)@ + parts_list_json(parts@.take(i as int)),
        decreases n - i,
    {
        out.append(",");
        append_part(out, &parts[i]);
        proof {
            lemma_parts_list_snoc(parts@.take(i as int), parts@[i as int]);
            assert(parts@.take(i as int + 1) =~= parts@.take(i as int).push(parts@[i as int]));
            assert(out@ =~= old(out)@ + parts_list_json(parts@.take(i as int + 1)));
        }
        i = i + 1;
    }
    proof {
        assert(parts@.take(n as int) =~= parts@);
    }
}

fn append_content(out: &mut String, c: &GeminiContent)
    ensures
        final(out)@ == old(out)@ + content_json(*c),
{
    out.append("{\"role\":");
    append_quoted(out, c.role.as_str());
    out.append(",\"parts\":[");
    append_parts(out, &c.parts);
    out.append("]}");
    proof {
        assert(out@ =~= old(out)@ + content_json(*c));
    }
}

#[verifier::loop_isolation(false)]
fn append_contents(out: &mut String, contents: &Vec<GeminiContent>)
    ensures
        final(out)@ == old(out)@ + contents_list_json(contents@),
{
    let n: usize = contents.len();
    if n == 0 {
        proof {
            assert(out@ =~= old(out)@ + contents_list_json(contents@));
        }
        return ;
    }
    append_content(out, &contents[0]);
    proof {
        assert(contents@.take(1)[0] == contents@[0]);
        assert(contents@.take(1).drop_first() =~= Seq::<GeminiContent>::empty());
        assert(out@ =~= old(out)@ + contents_list_json(contents@.take(1)));
    }
    let mut i: usize = 1;
    while i < n
        invariant
            1 <= i <= n,
            out@ == old(out)@ + contents_list_json(contents@.take(i as int)),
        decreases n - i,
    {
        out.append(",");
        append_content(out, &contents[i]);
        proof {
            lemma_contents_list_snoc(contents@.take(i as int), contents@[i as int]);
            assert(contents@.take(i as int + 1) =~= contents@.take(i as int).push(
                contents@[i as int],
            ));
            assert(out@ =~= old(out)@ + contents_list_json(contents@.take(i as int + 1)));
        }
        i = i + 1;
    }
    proof {
        assert(contents@.take(n as int) =~= contents@);
    }
}

/// Writes the whole request as one JSON document, without whitespace.
pub fn request_to_json(request: &GeminiRequest) -> (out: String)
    ensures
        out@ == request_json(*request),
{
    let mut out = String::new();
    out.append("{\"contents\":[");
    append_contents(&mut out, &request.contents);
    out.append("]}");
    proof {
        assert(out@ =~= request_json(*request));
    }
    out
}

} // verus!
