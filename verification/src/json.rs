//! JSON values and the text they are written as.

use crate::text::{characters, code_point};
use vstd::prelude::*;

verus! {

/// A JSON value. A word is written as it stands: a number, `true` or `false`.
pub ghost enum Json {
    Text(Seq<char>),
    Word(Seq<char>),
    Array(Seq<Json>),
    Object(Seq<Member>),
}

/// A named value of an object.
pub ghost struct Member {
    pub name: Seq<char>,
    pub value: Json,
}

/// The lower-case hexadecimal digit `d`.
pub open spec fn hex_char(d: int) -> char {
    if d < 10 {
        (48 + d) as char
    } else {
        (87 + d) as char
    }
}

/// How a character is written between quotes: quotes, backslashes and control characters are
/// escaped.
pub open spec fn escape(c: char) -> Seq<char> {
    let code = c as int;
    if c == '"' {
        seq!['\\', '"']
    } else if c == '\\' {
        seq!['\\', '\\']
    } else if c == '\n' {
        seq!['\\', 'n']
    } else if c == '\r' {
        seq!['\\', 'r']
    } else if c == '\t' {
        seq!['\\', 't']
    } else if code < 32 {
        seq!['\\', 'u', '0', '0', hex_char(code / 16), hex_char(code % 16)]
    } else {
        seq![c]
    }
}

/// The characters of `s`, each escaped.
pub open spec fn escaped(s: Seq<char>) -> Seq<char>
    decreases s.len(),
{
    if s.len() == 0 {
        Seq::empty()
    } else {
        escape(s[0]) + escaped(s.skip(1))
    }
}

pub open spec fn quoted(s: Seq<char>) -> Seq<char> {
    seq!['"'] + escaped(s) + seq!['"']
}

/// The text of a value.
pub open spec fn render(value: Json) -> Seq<char>
    decreases value,
{
    match value {
        Json::Text(s) => quoted(s),
        Json::Word(s) => s,
        Json::Array(items) => seq!['['] + render_items(items) + seq![']'],
        Json::Object(members) => seq!['{'] + render_members(members) + seq!['}'],
    }
}

/// The items of an array, a comma between each two.
pub open spec fn render_items(items: Seq<Json>) -> Seq<char>
    decreases items,
{
    if items.len() == 0 {
        Seq::empty()
    } else {
        render(items[0]) + render_more_items(items.subrange(1, items.len() as int))
    }
}

/// Items that follow another one: a comma before each.
pub open spec fn render_more_items(items: Seq<Json>) -> Seq<char>
    decreases items,
{
    if items.len() == 0 {
        Seq::empty()
    } else {
        seq![','] + render(items[0]) + render_more_items(items.subrange(1, items.len() as int))
    }
}

pub open spec fn render_member(member: Member) -> Seq<char>
    decreases member,
{
    quoted(member.name) + seq![':'] + render(member.value)
}

/// The members of an object, a comma between each two.
pub open spec fn render_members(members: Seq<Member>) -> Seq<char>
    decreases members,
{
    if members.len() == 0 {
        Seq::empty()
    } else {
        render_member(members[0]) + render_more_members(
            members.subrange(1, members.len() as int),
        )
    }
}

/// Members that follow another one: a comma before each.
pub open spec fn render_more_members(members: Seq<Member>) -> Seq<char>
    decreases members,
{
    if members.len() == 0 {
        Seq::empty()
    } else {
        seq![','] + render_member(members[0]) + render_more_members(
            members.subrange(1, members.len() as int),
        )
    }
}

fn hex_digit(d: u8) -> (c: char)
    requires
        d < 16,
    ensures
        c == hex_char(d as int),
{
    if d < 10 {
        (48 + d) as char
    } else {
        (87 + d) as char
    }
}

fn push_escaped(out: &mut String, c: char)
    ensures
        final(out)@ == old(out)@ + escape(c),
{
    let code: u32 = code_point(c);
    if c == '"' || c == '\\' {
        out.push('\\');
        out.push(c);
    } else if c == '\n' {
        out.push('\\');
        out.push('n');
    } else if c == '\r' {
        out.push('\\');
        out.push('r');
    } else if c == '\t' {
        out.push('\\');
        out.push('t');
    } else if code < 32 {
        out.push('\\');
        out.push('u');
        out.push('0');
        out.push('0');
        out.push(hex_digit((code / 16) as u8));
        out.push(hex_digit((code % 16) as u8));
    } else {
        out.push(c);
    }
    proof {
        assert(out@ =~= old(out)@ + escape(c));
    }
}

/// `text` as a JSON string.
pub fn json_string(text: &str) -> (out: String)
    ensures
        out@ == quoted(text@),
        out@ == render(Json::Text(text@)),
{
    let chars = characters(text);
    let mut out = String::new();
    out.push('"');
    let mut i: usize = 0;
    assert(chars@.skip(0) =~= text@);
    while i < chars.len()
        invariant
            i <= chars.len(),
            chars@ == text@,
            out@ + escaped(text@.skip(i as int)) == seq!['"'] + escaped(text@),
        decreases chars.len() - i,
    {
        let ghost before = out@;
        push_escaped(&mut out, chars[i]);
        proof {
            let rest = text@.skip(i as int);
            assert(rest.skip(1) =~= text@.skip(i as int + 1));
            assert(out@ + escaped(rest.skip(1)) =~= before + (escape(rest[0]) + escaped(
                rest.skip(1),
            )));
        }
        i = i + 1;
    }
    assert(text@.skip(i as int) =~= Seq::<char>::empty());
    assert(out@ =~= seq!['"'] + escaped(text@));
    out.push('"');
    assert(out@ =~= quoted(text@));
    out
}

/// The texts of `items` as JSON values.
pub open spec fn texts(items: Seq<String>) -> Seq<Json> {
    Seq::new(items.len(), |i: int| Json::Text(items[i]@))
}

/// `items` as a JSON array of strings.
pub fn json_string_array(items: &[String]) -> (out: String)
    ensures
        out@ == render(Json::Array(texts(items@))),
{
    let mut out = String::new();
    out.push('[');
    let ghost all = texts(items@);
    let mut i: usize = 0;
    assert(all.skip(0) =~= all);
    assert(out@ + render_items(all) =~= seq!['['] + render_items(all));
    while i < items.len()
        invariant
            i <= items.len(),
            all == texts(items@),
            out@ + (if i == 0 {
                render_items(all.skip(i as int))
            } else {
                render_more_items(all.skip(i as int))
            }) == seq!['['] + render_items(all),
        decreases items.len() - i,
    {
        let ghost before = out@;
        let ghost rest = all.skip(i as int);
        if i > 0 {
            out.push(',');
        }
        let item = json_string(items[i].as_str());
        out.append(item.as_str());
        proof {
            assert(rest[0] == Json::Text(items@[i as int]@));
            assert(rest.subrange(1, rest.len() as int) =~= all.skip(i as int + 1));
            let more = render_more_items(all.skip(i as int + 1));
            if i == 0 {
                assert(out@ + more =~= before + (render(rest[0]) + more));
            } else {
                assert(out@ + more =~= before + (seq![','] + render(rest[0]) + more));
            }
        }
        i = i + 1;
    }
    assert(all.skip(i as int) =~= Seq::<Json>::empty());
    assert(out@ =~= seq!['['] + render_items(all));
    out.push(']');
    assert(out@ =~= render(Json::Array(all)));
    out
}

/// What may follow a value: nothing, or a character that ends it.
pub open spec fn ends_value(rest: Seq<char>) -> bool {
    rest.len() == 0 || ends_word(rest[0])
}

pub open spec fn ends_word(c: char) -> bool {
    c == ',' || c == ']' || c == '}'
}

/// Whether a word is read as far as it goes and not taken for another kind of value.
pub open spec fn is_word(s: Seq<char>) -> bool {
    &&& s.len() > 0
    &&& s[0] != '"' && s[0] != '[' && s[0] != '{'
    &&& forall|i: int| 0 <= i < s.len() ==> !ends_word(#[trigger] s[i])
}

/// Whether every word in a value is one.
pub open spec fn well_formed(value: Json) -> bool
    decreases value,
{
    match value {
        Json::Text(_) => true,
        Json::Word(s) => is_word(s),
        Json::Array(items) => forall|i: int|
            0 <= i < items.len() ==> well_formed(#[trigger] items[i]),
        Json::Object(members) => forall|i: int|
            0 <= i < members.len() ==> well_formed((#[trigger] members[i]).value),
    }
}

/// The value of a hexadecimal digit.
pub open spec fn hex_value(c: char) -> Option<int> {
    let code = c as int;
    if 48 <= code <= 57 {
        Some(code - 48)
    } else if 97 <= code <= 102 {
        Some(code - 87)
    } else if 65 <= code <= 70 {
        Some(code - 55)
    } else {
        None
    }
}

/// The character with the number four hexadecimal digits spell, where there is one.
pub open spec fn read_hex(a: char, b: char, c: char, d: char) -> Option<char> {
    match (hex_value(a), hex_value(b), hex_value(c), hex_value(d)) {
        (Some(a), Some(b), Some(c), Some(d)) => {
            let code = 4096 * a + 256 * b + 16 * c + d;
            if 0xd800 <= code <= 0xdfff {
                None
            } else {
                Some(code as char)
            }
        },
        _ => None,
    }
}

/// The first character of the text that goes on with `s`, and what follows it; nothing where the
/// text ends or is not JSON.
pub open spec fn read_char(s: Seq<char>) -> Option<(char, Seq<char>)> {
    if s.len() == 0 || s[0] == '"' || (s[0] as int) < 32 {
        None
    } else if s[0] != '\\' {
        Some((s[0], s.skip(1)))
    } else if s.len() < 2 {
        None
    } else if s[1] == '"' || s[1] == '\\' || s[1] == '/' {
        Some((s[1], s.skip(2)))
    } else if s[1] == 'b' {
        Some((8 as char, s.skip(2)))
    } else if s[1] == 'f' {
        Some((12 as char, s.skip(2)))
    } else if s[1] == 'n' {
        Some(('\n', s.skip(2)))
    } else if s[1] == 'r' {
        Some(('\r', s.skip(2)))
    } else if s[1] == 't' {
        Some(('\t', s.skip(2)))
    } else if s[1] == 'u' && s.len() >= 6 {
        match read_hex(s[2], s[3], s[4], s[5]) {
            Some(c) => Some((c, s.skip(6))),
            None => None,
        }
    } else {
        None
    }
}

/// The text that goes on with `s` up to its closing quote, and what follows the quote.
pub open spec fn read_text(s: Seq<char>) -> Option<(Seq<char>, Seq<char>)>
    decreases s.len(),
{
    if s.len() > 0 && s[0] == '"' {
        Some((Seq::empty(), s.skip(1)))
    } else {
        match read_char(s) {
            Some((c, rest)) => match read_text(rest) {
                Some((more, end)) => Some((seq![c] + more, end)),
                None => None,
            },
            None => None,
        }
    }
}

/// The text a JSON string spells, and what follows the string.
pub open spec fn read_quoted(s: Seq<char>) -> Option<(Seq<char>, Seq<char>)> {
    if s.len() > 0 && s[0] == '"' {
        read_text(s.skip(1))
    } else {
        None
    }
}

/// How many characters of `s` go by before one that ends a word.
pub open spec fn word_length(s: Seq<char>) -> nat
    decreases s.len(),
{
    if s.len() == 0 || ends_word(s[0]) {
        0
    } else {
        1 + word_length(s.skip(1))
    }
}

/// The value `s` starts with, and what follows it.
pub open spec fn read_value(s: Seq<char>) -> Option<(Json, Seq<char>)>
    decreases s.len(), 0nat,
{
    if s.len() == 0 {
        None
    } else if s[0] == '"' {
        match read_quoted(s) {
            Some((text, rest)) => Some((Json::Text(text), rest)),
            None => None,
        }
    } else if s[0] == '[' {
        if s.len() > 1 && s[1] == ']' {
            Some((Json::Array(Seq::empty()), s.skip(2)))
        } else {
            match read_items(s.skip(1)) {
                Some((items, rest)) => Some((Json::Array(items), rest)),
                None => None,
            }
        }
    } else if s[0] == '{' {
        if s.len() > 1 && s[1] == '}' {
            Some((Json::Object(Seq::empty()), s.skip(2)))
        } else {
            match read_members(s.skip(1)) {
                Some((members, rest)) => Some((Json::Object(members), rest)),
                None => None,
            }
        }
    } else {
        let length = word_length(s) as int;
        if length == 0 {
            None
        } else {
            Some((Json::Word(s.take(length)), s.skip(length)))
        }
    }
}

/// The items up to the end of an array, at least one, and what follows the array.
pub open spec fn read_items(s: Seq<char>) -> Option<(Seq<Json>, Seq<char>)>
    decreases s.len(), 1nat,
{
    match read_value(s) {
        Some((item, rest)) => if rest.len() == 0 || rest.len() > s.len() {
            None
        } else if rest[0] == ']' {
            Some((seq![item], rest.skip(1)))
        } else if rest[0] == ',' {
            match read_items(rest.skip(1)) {
                Some((more, end)) => Some((seq![item] + more, end)),
                None => None,
            }
        } else {
            None
        },
        None => None,
    }
}

/// The members up to the end of an object, at least one, and what follows the object.
pub open spec fn read_members(s: Seq<char>) -> Option<(Seq<Member>, Seq<char>)>
    decreases s.len(), 1nat,
{
    match read_quoted(s) {
        Some((name, after_name)) => if after_name.len() == 0 || after_name.len() > s.len()
            || after_name[0] != ':' {
            None
        } else {
            match read_value(after_name.skip(1)) {
                Some((value, rest)) => if rest.len() == 0 || rest.len() > s.len() {
                    None
                } else if rest[0] == '}' {
                    Some((seq![Member { name, value }], rest.skip(1)))
                } else if rest[0] == ',' {
                    match read_members(rest.skip(1)) {
                        Some((more, end)) => Some((seq![Member { name, value }] + more, end)),
                        None => None,
                    }
                } else {
                    None
                },
                None => None,
            }
        },
        None => None,
    }
}

proof fn lemma_escape_reads_back(c: char, rest: Seq<char>)
    ensures
        read_char(escape(c) + rest) == Some((c, rest)),
        (escape(c) + rest)[0] != '"',
{
    let s = escape(c) + rest;
    let code = c as int;
    assert(s.skip(escape(c).len() as int) =~= rest);
    assert(s[0] == escape(c)[0]);
    if escape(c).len() > 1 {
        assert(s[1] == escape(c)[1]);
    }
    if escape(c).len() == 6 {
        assert(s[2] == '0' && s[3] == '0' && s[4] == escape(c)[4] && s[5] == escape(c)[5]);
        assert(0 <= code / 16 < 2 && 0 <= code % 16 < 16);
        assert(hex_value(hex_char(code / 16)) == Some(code / 16));
        assert(hex_value(hex_char(code % 16)) == Some(code % 16));
        assert(16 * (code / 16) + code % 16 == code);
    }
}

proof fn lemma_escaped_reads_back(text: Seq<char>, rest: Seq<char>)
    ensures
        read_text(escaped(text) + seq!['"'] + rest) == Some((text, rest)),
    decreases text.len(),
{
    let s = escaped(text) + seq!['"'] + rest;
    if text.len() == 0 {
        assert(s[0] == '"');
        assert(s.skip(1) =~= rest);
        assert(text =~= Seq::<char>::empty());
    } else {
        let after = escaped(text.skip(1)) + seq!['"'] + rest;
        lemma_escape_reads_back(text[0], after);
        lemma_escaped_reads_back(text.skip(1), rest);
        assert(s =~= escape(text[0]) + after);
        assert(seq![text[0]] + text.skip(1) =~= text);
    }
}

proof fn lemma_word_length(word: Seq<char>, rest: Seq<char>)
    requires
        forall|i: int| 0 <= i < word.len() ==> !ends_word(#[trigger] word[i]),
        ends_value(rest),
    ensures
        word_length(word + rest) == word.len(),
    decreases word.len(),
{
    let s = word + rest;
    if word.len() == 0 {
        assert(s =~= rest);
    } else {
        assert(s[0] == word[0]);
        assert(s.skip(1) =~= word.skip(1) + rest);
        lemma_word_length(word.skip(1), rest);
    }
}

/// What a value's text starts with tells what kind of value it is.
proof fn lemma_first_character(value: Json)
    requires
        well_formed(value),
    ensures
        render(value).len() > 0,
        value is Text <==> render(value)[0] == '"',
        value is Array <==> render(value)[0] == '[',
        value is Object <==> render(value)[0] == '{',
        !ends_word(render(value)[0]),
{
}

/// Items that follow another one are a comma and the items.
proof fn lemma_more_items(items: Seq<Json>)
    requires
        items.len() > 0,
    ensures
        render_more_items(items) == seq![','] + render_items(items),
{
    assert(render_more_items(items) =~= seq![','] + render_items(items));
}

/// Members that follow another one are a comma and the members.
proof fn lemma_more_members(members: Seq<Member>)
    requires
        members.len() > 0,
    ensures
        render_more_members(members) == seq![','] + render_members(members),
{
    assert(render_more_members(members) =~= seq![','] + render_members(members));
}

proof fn lemma_value_reads_back(value: Json, rest: Seq<char>)
    requires
        well_formed(value),
        ends_value(rest),
    ensures
        read_value(render(value) + rest) == Some((value, rest)),
    decreases value,
{
    let s = render(value) + rest;
    lemma_first_character(value);
    assert(s[0] == render(value)[0]);
    match value {
        Json::Text(text) => {
            law_text_reads_back(text, rest);
        },
        Json::Word(word) => {
            lemma_word_length(word, rest);
            assert(s.take(word.len() as int) =~= word);
            assert(s.skip(word.len() as int) =~= rest);
        },
        Json::Array(items) => {
            if items.len() == 0 {
                assert(s[1] == ']');
                assert(s.skip(2) =~= rest);
                assert(items =~= Seq::<Json>::empty());
            } else {
                lemma_first_character(items[0]);
                assert(s[1] == render(items[0])[0]);
                assert(s.skip(1) =~= render_items(items) + seq![']'] + rest);
                lemma_items_read_back(items, rest);
            }
        },
        Json::Object(members) => {
            if members.len() == 0 {
                assert(s[1] == '}');
                assert(s.skip(2) =~= rest);
                assert(members =~= Seq::<Member>::empty());
            } else {
                assert(render_member(members[0])[0] == '"');
                assert(s[1] == render_members(members)[0]);
                assert(s.skip(1) =~= render_members(members) + seq!['}'] + rest);
                lemma_members_read_back(members, rest);
            }
        },
    }
}

proof fn lemma_items_read_back(items: Seq<Json>, rest: Seq<char>)
    requires
        items.len() > 0,
        forall|i: int| 0 <= i < items.len() ==> well_formed(#[trigger] items[i]),
    ensures
        read_items(render_items(items) + seq![']'] + rest) == Some((items, rest)),
    decreases items,
{
    let s = render_items(items) + seq![']'] + rest;
    let more = items.subrange(1, items.len() as int);
    let after = render_more_items(more) + seq![']'] + rest;
    assert(s =~= render(items[0]) + after);
    if more.len() == 0 {
        assert(after[0] == ']');
        assert(after.skip(1) =~= rest);
        lemma_value_reads_back(items[0], after);
        assert(seq![items[0]] =~= items);
    } else {
        lemma_more_items(more);
        assert(after[0] == ',');
        assert(after.skip(1) =~= render_items(more) + seq![']'] + rest);
        lemma_value_reads_back(items[0], after);
        lemma_items_read_back(more, rest);
        assert(seq![items[0]] + more =~= items);
    }
}

proof fn lemma_members_read_back(members: Seq<Member>, rest: Seq<char>)
    requires
        members.len() > 0,
        forall|i: int| 0 <= i < members.len() ==> well_formed((#[trigger] members[i]).value),
    ensures
        read_members(render_members(members) + seq!['}'] + rest) == Some((members, rest)),
    decreases members,
{
    let s = render_members(members) + seq!['}'] + rest;
    let first = members[0];
    let more = members.subrange(1, members.len() as int);
    let after = render_more_members(more) + seq!['}'] + rest;
    let after_name = seq![':'] + render(first.value) + after;
    assert(s =~= quoted(first.name) + after_name);
    law_text_reads_back(first.name, after_name);
    assert(after_name.skip(1) =~= render(first.value) + after);
    if more.len() == 0 {
        assert(after[0] == '}');
        assert(after.skip(1) =~= rest);
        lemma_value_reads_back(first.value, after);
        assert(seq![first] =~= members);
    } else {
        lemma_more_members(more);
        assert(after[0] == ',');
        assert(after.skip(1) =~= render_members(more) + seq!['}'] + rest);
        lemma_value_reads_back(first.value, after);
        lemma_members_read_back(more, rest);
        assert(seq![first] + more =~= members);
    }
}

/// A text reads back from the JSON string it is written as, whatever follows the string.
pub proof fn law_text_reads_back(text: Seq<char>, rest: Seq<char>)
    ensures
        read_quoted(quoted(text) + rest) == Some((text, rest)),
{
    let s = quoted(text) + rest;
    assert(s.skip(1) =~= escaped(text) + seq!['"'] + rest);
    lemma_escaped_reads_back(text, rest);
}

/// A value reads back from its JSON text.
pub proof fn law_value_reads_back(value: Json)
    requires
        well_formed(value),
    ensures
        read_value(render(value)) == Some((value, Seq::<char>::empty())),
{
    let none = Seq::<char>::empty();
    assert(render(value) + none =~= render(value));
    lemma_value_reads_back(value, none);
}

/// No two values are written alike.
pub proof fn law_json_is_told_apart(a: Json, b: Json)
    requires
        well_formed(a),
        well_formed(b),
        render(a) == render(b),
    ensures
        a == b,
{
    law_value_reads_back(a);
    law_value_reads_back(b);
}

/// What is written between the quotes of a JSON string has no line break or other control
/// character in it.
pub proof fn law_quoted_text_is_printable(s: Seq<char>, i: int)
    requires
        0 <= i < quoted(s).len(),
    ensures
        quoted(s)[i] as int >= 32,
{
    lemma_escaped_is_printable(s);
    if 0 < i < quoted(s).len() - 1 {
        assert(quoted(s)[i] == escaped(s)[i - 1]);
    }
}

proof fn lemma_escape_is_printable(c: char)
    ensures
        forall|i: int| 0 <= i < escape(c).len() ==> (#[trigger] escape(c)[i]) as int >= 32,
{
    let code = c as int;
    if code < 32 {
        assert(0 <= code / 16 < 2 && 0 <= code % 16 < 16);
        assert(hex_char(code / 16) as int >= 48 && hex_char(code % 16) as int >= 48);
    }
}

proof fn lemma_escaped_is_printable(s: Seq<char>)
    ensures
        forall|i: int| 0 <= i < escaped(s).len() ==> (#[trigger] escaped(s)[i]) as int >= 32,
    decreases s.len(),
{
    if s.len() > 0 {
        lemma_escaped_is_printable(s.skip(1));
        lemma_escape_is_printable(s[0]);
        let first = escape(s[0]);
        assert forall|i: int| 0 <= i < escaped(s).len() implies (#[trigger] escaped(s)[i]) as int
            >= 32 by {
            if i < first.len() {
                assert(escaped(s)[i] == first[i]);
            } else {
                assert(escaped(s)[i] == escaped(s.skip(1))[i - first.len()]);
            }
        }
    }
}

/// A quote and a backslash are written with a backslash before them; a line feed, a carriage return
/// and a tab with a backslash and their letter; any other character below the space with a backslash,
/// a u and four digits, of which the last two are its number in hexadecimal; and every other
/// character as it is.
pub proof fn law_escapes(c: char)
    ensures
        c == '"' || c == '\\' ==> escape(c) == seq!['\\', c],
        c == '\n' ==> escape(c) == seq!['\\', 'n'],
        c == '\r' ==> escape(c) == seq!['\\', 'r'],
        c == '\t' ==> escape(c) == seq!['\\', 't'],
        (c as int) < 32 && c != '\n' && c != '\r' && c != '\t' ==> {
            let written = escape(c);
            &&& written.len() == 6
            &&& written[0] == '\\' && written[1] == 'u' && written[2] == '0' && written[3] == '0'
            &&& written[4] == '0' || written[4] == '1'
            &&& '0' <= written[5] <= '9' || 'a' <= written[5] <= 'f'
            &&& c as int == 16 * (written[4] as int - '0' as int) + if written[5] <= '9' {
                written[5] as int - '0' as int
            } else {
                written[5] as int - 'a' as int + 10
            }
        },
        c as int >= 32 && c != '"' && c != '\\' ==> escape(c) == seq![c],
{
}

/// A text is written character by character between quotes.
pub proof fn law_text_is_written_between_quotes(text: Seq<char>, last: char)
    ensures
        render(Json::Text(text)) == seq!['"'] + escaped(text) + seq!['"'],
        escaped(Seq::empty()) == Seq::<char>::empty(),
        escaped(text.push(last)) == escaped(text) + escape(last),
    decreases text.len(),
{
    let longer = text.push(last);
    if text.len() == 0 {
        assert(longer.skip(1) =~= Seq::<char>::empty());
        assert(escaped(longer.skip(1)) =~= Seq::<char>::empty());
        assert(escaped(longer) =~= escaped(text) + escape(last));
    } else {
        law_text_is_written_between_quotes(text.skip(1), last);
        assert(longer.skip(1) =~= text.skip(1).push(last));
        assert(escaped(longer) =~= escaped(text) + escape(last));
    }
}

proof fn lemma_more_items_push(items: Seq<Json>, last: Json)
    ensures
        render_more_items(items.push(last)) == render_more_items(items) + seq![','] + render(last),
    decreases items.len(),
{
    let longer = items.push(last);
    let rest = longer.subrange(1, longer.len() as int);
    if items.len() == 0 {
        assert(rest =~= Seq::<Json>::empty());
        assert(render_more_items(rest) =~= Seq::<char>::empty());
        assert(render_more_items(longer) =~= render_more_items(items) + seq![','] + render(last));
    } else {
        let more = items.subrange(1, items.len() as int);
        assert(rest =~= more.push(last));
        lemma_more_items_push(more, last);
        assert(render_more_items(longer) =~= render_more_items(items) + seq![','] + render(last));
    }
}

/// An array is written as its items between brackets, with a comma between each two and none
/// elsewhere, and a word as it is.
pub proof fn law_array_is_written_with_commas(items: Seq<Json>, last: Json, word: Seq<char>)
    ensures
        render(Json::Word(word)) == word,
        render(Json::Array(Seq::empty())) == seq!['[', ']'],
        render(Json::Array(items.push(last))) == render(Json::Array(items)).drop_last() + (
        if items.len() == 0 {
            Seq::empty()
        } else {
            seq![',']
        }) + render(last) + seq![']'],
{
    assert(render(Json::Array(Seq::empty())) =~= seq!['[', ']']);
    let longer = items.push(last);
    let rest = longer.subrange(1, longer.len() as int);
    let whole = render(Json::Array(items));
    assert(whole.drop_last() =~= seq!['['] + render_items(items));
    if items.len() == 0 {
        assert(rest =~= Seq::<Json>::empty());
        assert(render_more_items(rest) =~= Seq::<char>::empty());
        assert(render(Json::Array(longer)) =~= whole.drop_last() + Seq::<char>::empty() + render(
            last,
        ) + seq![']']);
    } else {
        let more = items.subrange(1, items.len() as int);
        assert(rest =~= more.push(last));
        lemma_more_items_push(more, last);
        assert(longer[0] == items[0]);
        assert(render(Json::Array(longer)) =~= whole.drop_last() + seq![','] + render(last)
            + seq![']']);
    }
}

proof fn lemma_more_members_push(members: Seq<Member>, last: Member)
    ensures
        render_more_members(members.push(last)) == render_more_members(members) + seq![',']
            + render_member(last),
    decreases members.len(),
{
    let longer = members.push(last);
    let rest = longer.subrange(1, longer.len() as int);
    if members.len() == 0 {
        assert(rest =~= Seq::<Member>::empty());
        assert(render_more_members(rest) =~= Seq::<char>::empty());
        assert(render_more_members(longer) =~= render_more_members(members) + seq![',']
            + render_member(last));
    } else {
        let more = members.subrange(1, members.len() as int);
        assert(rest =~= more.push(last));
        lemma_more_members_push(more, last);
        assert(render_more_members(longer) =~= render_more_members(members) + seq![',']
            + render_member(last));
    }
}

/// An object is written as its members between braces, with a comma between each two and none
/// elsewhere; a member as its name between quotes, a colon and its value.
pub proof fn law_object_is_written_with_commas(members: Seq<Member>, last: Member)
    ensures
        render(Json::Object(Seq::empty())) == seq!['{', '}'],
        render(Json::Object(members.push(last))) == render(Json::Object(members)).drop_last() + (
        if members.len() == 0 {
            Seq::empty()
        } else {
            seq![',']
        }) + render(Json::Text(last.name)) + seq![':'] + render(last.value) + seq!['}'],
{
    assert(render(Json::Object(Seq::empty())) =~= seq!['{', '}']);
    let longer = members.push(last);
    let rest = longer.subrange(1, longer.len() as int);
    let whole = render(Json::Object(members));
    assert(whole.drop_last() =~= seq!['{'] + render_members(members));
    if members.len() == 0 {
        assert(rest =~= Seq::<Member>::empty());
        assert(render_more_members(rest) =~= Seq::<char>::empty());
        assert(render(Json::Object(longer)) =~= whole.drop_last() + Seq::<char>::empty() + render(
            Json::Text(last.name),
        ) + seq![':'] + render(last.value) + seq!['}']);
    } else {
        let more = members.subrange(1, members.len() as int);
        assert(rest =~= more.push(last));
        lemma_more_members_push(more, last);
        assert(longer[0] == members[0]);
        assert(render(Json::Object(longer)) =~= whole.drop_last() + seq![','] + render(
            Json::Text(last.name),
        ) + seq![':'] + render(last.value) + seq!['}']);
    }
}

/// A list of texts is a list of values, each the text of its place.
pub proof fn law_texts_keep_their_places(items: Seq<String>, i: int)
    requires
        0 <= i < items.len(),
    ensures
        texts(items).len() == items.len(),
        texts(items)[i] == Json::Text(items[i]@),
{
}

} // verus!
