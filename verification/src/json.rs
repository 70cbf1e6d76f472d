use crate::record::Todo;
use crate::record::TodoView;
use crate::text::digit_char;
use crate::text::push_char;
use vstd::prelude::*;

verus! {

// ---------------------------------------------------------------------------
// The storage text format, as a grammar over characters.
//
// A storage text is a JSON array of objects, each with exactly the two
// members "description" (a string) and "completed" (a boolean), in either
// order.  The parser below is the meaning of a storage text: it consumes a
// prefix of the character sequence and returns the parsed value together
// with the unconsumed rest, or nothing when the text is ill-formed.
// ---------------------------------------------------------------------------
/// The whitespace characters that may stand between tokens.
pub open spec fn is_ws(c: char) -> bool {
    c == ' ' || c == '\n' || c == '\t' || c == '\r'
}

/// A control character, which may not stand raw inside a string literal.
pub open spec fn is_control(c: char) -> bool {
    (c as u32) < 32
}

/// The longest all-whitespace prefix of `s`, removed.
pub open spec fn skip_ws(s: Seq<char>) -> Seq<char>
    decreases s.len(),
{
    if s.len() > 0 && is_ws(s[0]) {
        skip_ws(s.drop_first())
    } else {
        s
    }
}

/// The value of a hexadecimal digit character, or -1 for any other character.
pub open spec fn hex_val(c: char) -> int {
    let u = c as u32;
    if '0' as u32 <= u && u <= '9' as u32 {
        u - '0' as u32
    } else if 'a' as u32 <= u && u <= 'f' as u32 {
        u - 'a' as u32 + 10
    } else if 'A' as u32 <= u && u <= 'F' as u32 {
        u - 'A' as u32 + 10
    } else {
        -1
    }
}

/// The character denoted by the two-character escape `\c`, if any.
pub open spec fn unescaped(c: char) -> Option<char> {
    if c == '"' {
        Some('"')
    } else if c == '\\' {
        Some('\\')
    } else if c == '/' {
        Some('/')
    } else if c == 'n' {
        Some('\n')
    } else if c == 't' {
        Some('\t')
    } else if c == 'r' {
        Some('\r')
    } else if c == 'b' {
        Some('\u{8}')
    } else if c == 'f' {
        Some('\u{c}')
    } else {
        None
    }
}

/// Parses the remainder of a string literal, after its opening quote: the
/// content up to the closing quote, with escapes resolved, and the rest of
/// the text.  Unicode escapes are accepted up to code point 255; a raw control
/// character, an unknown escape, or a missing closing quote is ill-formed.
pub open spec fn parse_string_body(s: Seq<char>) -> Option<(Seq<char>, Seq<char>)>
    decreases s.len(),
{
    if s.len() == 0 {
        None
    } else if s[0] == '"' {
        Some((Seq::empty(), s.drop_first()))
    } else if s[0] == '\\' {
        if s.len() < 2 {
            None
        } else if s[1] == 'u' {
            if s.len() < 6 {
                None
            } else if s[2] == '0' && s[3] == '0' && hex_val(s[4]) >= 0 && hex_val(s[5]) >= 0 {
                let c = (16 * hex_val(s[4]) + hex_val(s[5])) as u8 as char;
                match parse_string_body(s.skip(6)) {
                    Some((t, r)) => Some((seq![c] + t, r)),
                    None => None,
                }
            } else {
                None
            }
        } else {
            match unescaped(s[1]) {
                Some(c) => match parse_string_body(s.skip(2)) {
                    Some((t, r)) => Some((seq![c] + t, r)),
                    None => None,
                },
                None => None,
            }
        }
    } else if is_control(s[0]) {
        None
    } else {
        match parse_string_body(s.drop_first()) {
            Some((t, r)) => Some((seq![s[0]] + t, r)),
            None => None,
        }
    }
}

/// Parses a quoted string literal.
pub open spec fn parse_string(s: Seq<char>) -> Option<(Seq<char>, Seq<char>)> {
    if s.len() > 0 && s[0] == '"' {
        parse_string_body(s.drop_first())
    } else {
        None
    }
}

/// Parses the literal `true` or `false`.
pub open spec fn parse_bool(s: Seq<char>) -> Option<(bool, Seq<char>)> {
    if s.len() >= 4 && s[0] == 't' && s[1] == 'r' && s[2] == 'u' && s[3] == 'e' {
        Some((true, s.skip(4)))
    } else if s.len() >= 5 && s[0] == 'f' && s[1] == 'a' && s[2] == 'l' && s[3] == 's' && s[4]
        == 'e' {
        Some((false, s.skip(5)))
    } else {
        None
    }
}

/// The member name that carries a record's description.
pub open spec fn description_key() -> Seq<char> {
    seq!['d', 'e', 's', 'c', 'r', 'i', 'p', 't', 'i', 'o', 'n']
}

/// The member name that carries a record's completion flag.
pub open spec fn completed_key() -> Seq<char> {
    seq!['c', 'o', 'm', 'p', 'l', 'e', 't', 'e', 'd']
}

/// One parsed object member: either of the two fields a record holds.
pub ghost enum Field {
    Description(Seq<char>),
    Completed(bool),
}

/// Parses one object member: a known key, a colon, and a value of that key's
/// type.  Any other key is ill-formed.
pub open spec fn parse_field(s: Seq<char>) -> Option<(Field, Seq<char>)> {
    match parse_string(s) {
        None => None,
        Some((key, s1)) => {
            let s2 = skip_ws(s1);
            if s2.len() == 0 || s2[0] != ':' {
                None
            } else {
                let s3 = skip_ws(s2.drop_first());
                if key == description_key() {
                    match parse_string(s3) {
                        Some((d, s4)) => Some((Field::Description(d), s4)),
                        None => None,
                    }
                } else if key == completed_key() {
                    match parse_bool(s3) {
                        Some((b, s4)) => Some((Field::Completed(b), s4)),
                        None => None,
                    }
                } else {
                    None
                }
            }
        },
    }
}

/// Parses one record: an object holding a description member and a completed
/// member, one of each, in either order.
pub open spec fn parse_object(s: Seq<char>) -> Option<(TodoView, Seq<char>)> {
    if s.len() == 0 || s[0] != '{' {
        None
    } else {
        match parse_field(skip_ws(s.drop_first())) {
            None => None,
            Some((f1, s1)) => {
                let s2 = skip_ws(s1);
                if s2.len() == 0 || s2[0] != ',' {
                    None
                } else {
                    match parse_field(skip_ws(s2.drop_first())) {
                        None => None,
                        Some((f2, s3)) => {
                            let s4 = skip_ws(s3);
                            if s4.len() == 0 || s4[0] != '}' {
                                None
                            } else {
                                match (f1, f2) {
                                    (Field::Description(d), Field::Completed(b)) => Some(
                                        (
                                            TodoView { description: d, completed: b },
                                            s4.drop_first(),
                                        ),
                                    ),
                                    (Field::Completed(b), Field::Description(d)) => Some(
                                        (
                                            TodoView { description: d, completed: b },
                                            s4.drop_first(),
                                        ),
                                    ),
                                    _ => None,
                                }
                            }
                        },
                    }
                }
            },
        }
    }
}

/// Whatever whitespace is skipped, the text only gets shorter.
pub proof fn lemma_skip_ws_len(s: Seq<char>)
    ensures
        skip_ws(s).len() <= s.len(),
    decreases s.len(),
{
    if s.len() > 0 && is_ws(s[0]) {
        lemma_skip_ws_len(s.drop_first());
    }
}

/// A parsed string literal consumes at least its closing quote.
pub proof fn lemma_parse_string_body_len(s: Seq<char>)
    ensures
        parse_string_body(s) matches Some((t, r)) ==> r.len() < s.len(),
    decreases s.len(),
{
    if s.len() == 0 {
    } else if s[0] == '"' {
    } else if s[0] == '\\' {
        if s.len() >= 2 && s[1] == 'u' {
            if s.len() >= 6 {
                lemma_parse_string_body_len(s.skip(6));
            }
        } else if s.len() >= 2 {
            lemma_parse_string_body_len(s.skip(2));
        }
    } else {
        lemma_parse_string_body_len(s.drop_first());
    }
}

/// A parsed object member consumes at least one character.
pub proof fn lemma_parse_field_len(s: Seq<char>)
    ensures
        parse_field(s) matches Some((f, r)) ==> r.len() < s.len(),
{
    match parse_string(s) {
        Some((key, s1)) => {
            lemma_parse_string_body_len(s.drop_first());
            let s2 = skip_ws(s1);
            lemma_skip_ws_len(s1);
            if s2.len() > 0 && s2[0] == ':' {
                let s3 = skip_ws(s2.drop_first());
                lemma_skip_ws_len(s2.drop_first());
                match parse_string(s3) {
                    Some(_) => {
                        lemma_parse_string_body_len(s3.drop_first());
                    },
                    None => {},
                }
            }
        },
        None => {},
    }
}

/// A parsed record consumes at least one character.
pub proof fn lemma_parse_object_len(s: Seq<char>)
    ensures
        parse_object(s) matches Some((t, r)) ==> r.len() < s.len(),
{
    if s.len() > 0 && s[0] == '{' {
        let s0 = skip_ws(s.drop_first());
        lemma_skip_ws_len(s.drop_first());
        lemma_parse_field_len(s0);
        match parse_field(s0) {
            Some((f1, s1)) => {
                let s2 = skip_ws(s1);
                lemma_skip_ws_len(s1);
                if s2.len() > 0 && s2[0] == ',' {
                    let s25 = skip_ws(s2.drop_first());
                    lemma_skip_ws_len(s2.drop_first());
                    lemma_parse_field_len(s25);
                    match parse_field(s25) {
                        Some((f2, s3)) => {
                            lemma_skip_ws_len(s3);
                        },
                        None => {},
                    }
                }
            },
            None => {},
        }
    }
}

/// Parses one or more comma-separated records followed by the closing
/// bracket of the array.
pub open spec fn parse_elements(s: Seq<char>) -> Option<(Seq<TodoView>, Seq<char>)>
    decreases s.len(),
    via parse_elements_decreases
{
    match parse_object(s) {
        None => None,
        Some((t, s1)) => {
            let s2 = skip_ws(s1);
            if s2.len() == 0 {
                None
            } else if s2[0] == ']' {
                Some((seq![t], s2.drop_first()))
            } else if s2[0] == ',' {
                match parse_elements(skip_ws(s2.drop_first())) {
                    Some((l, r)) => Some((seq![t] + l, r)),
                    None => None,
                }
            } else {
                None
            }
        },
    }
}

#[via_fn]
proof fn parse_elements_decreases(s: Seq<char>) {
    lemma_parse_object_len(s);
    match parse_object(s) {
        Some((t, s1)) => {
            lemma_skip_ws_len(s1);
            let s2 = skip_ws(s1);
            if s2.len() > 0 && s2[0] == ',' {
                lemma_skip_ws_len(s2.drop_first());
            }
        },
        None => {},
    }
}

/// Parses a whole array of records: empty brackets, or bracketed
/// comma-separated records.
pub open spec fn parse_array(s: Seq<char>) -> Option<(Seq<TodoView>, Seq<char>)> {
    if s.len() == 0 || s[0] != '[' {
        None
    } else {
        let s1 = skip_ws(s.drop_first());
        if s1.len() > 0 && s1[0] == ']' {
            Some((Seq::empty(), s1.drop_first()))
        } else {
            parse_elements(s1)
        }
    }
}

/// The meaning of a storage text: the record list it denotes, if the whole
/// text, up to surrounding whitespace, is one well-formed array of records.
pub open spec fn parse_todos(s: Seq<char>) -> Option<Seq<TodoView>> {
    match parse_array(skip_ws(s)) {
        Some((l, r)) => if skip_ws(r).len() == 0 {
            Some(l)
        } else {
            None
        },
        None => None,
    }
}

// ---------------------------------------------------------------------------
// The storage text written for a list: a pretty-printed array, one record
// per object, members indented by four spaces, objects by two.
// ---------------------------------------------------------------------------
/// The hexadecimal digit character for a value below sixteen.
pub open spec fn hex_digit(d: int) -> char {
    if d < 10 {
        digit_char(d)
    } else if d == 10 {
        'a'
    } else if d == 11 {
        'b'
    } else if d == 12 {
        'c'
    } else if d == 13 {
        'd'
    } else if d == 14 {
        'e'
    } else {
        'f'
    }
}

/// How one character of a description stands inside a written string
/// literal: quote, backslash and the named control characters as two-character
/// escapes, any other control character as a unicode escape, the rest raw.
pub open spec fn escape_char(c: char) -> Seq<char> {
    if c == '"' {
        seq!['\\', '"']
    } else if c == '\\' {
        seq!['\\', '\\']
    } else if c == '\n' {
        seq!['\\', 'n']
    } else if c == '\t' {
        seq!['\\', 't']
    } else if c == '\r' {
        seq!['\\', 'r']
    } else if c == '\u{8}' {
        seq!['\\', 'b']
    } else if c == '\u{c}' {
        seq!['\\', 'f']
    } else if is_control(c) {
        seq!['\\', 'u', '0', '0', hex_digit((c as u32) as int / 16), hex_digit((c as u32) as int % 16)]
    } else {
        seq![c]
    }
}

/// A description's characters as written inside its string literal.
pub open spec fn escape(s: Seq<char>) -> Seq<char>
    decreases s.len(),
{
    if s.len() == 0 {
        Seq::empty()
    } else {
        escape_char(s[0]) + escape(s.drop_first())
    }
}

/// The written boolean literal.
pub open spec fn bool_text(b: bool) -> Seq<char> {
    if b {
        seq!['t', 'r', 'u', 'e']
    } else {
        seq!['f', 'a', 'l', 's', 'e']
    }
}

/// The written object for one record: both members on their own indented
/// lines, description first.
pub open spec fn object_text(t: TodoView) -> Seq<char> {
    seq!['{', '\n', ' ', ' ', ' ', ' ', '"'] + description_key() + seq!['"', ':', ' ', '"']
        + escape(t.description) + seq!['"', ',', '\n', ' ', ' ', ' ', ' ', '"'] + completed_key()
        + seq!['"', ':', ' '] + bool_text(t.completed) + seq!['\n', ' ', ' ', '}']
}

/// The written run of array items: each object indented by two spaces,
/// separated by a comma and a line break.
pub open spec fn items_text(l: Seq<TodoView>) -> Seq<char>
    decreases l.len(),
{
    if l.len() == 0 {
        Seq::empty()
    } else if l.len() == 1 {
        seq![' ', ' '] + object_text(l[0])
    } else {
        seq![' ', ' '] + object_text(l[0]) + seq![',', '\n'] + items_text(l.drop_first())
    }
}

/// The storage text written for a list: bare brackets for the empty list,
/// else the items between bracket lines.
pub open spec fn todos_text(l: Seq<TodoView>) -> Seq<char> {
    if l.len() == 0 {
        seq!['[', ']']
    } else {
        seq!['[', '\n'] + items_text(l) + seq!['\n', ']']
    }
}

/// The hexadecimal digit character for `d`, matching `hex_digit`.
fn hex_digit_of(d: u32) -> (c: char)
    requires
        d < 16,
    ensures
        c == hex_digit(d as int),
{
    match d {
        0 => '0',
        1 => '1',
        2 => '2',
        3 => '3',
        4 => '4',
        5 => '5',
        6 => '6',
        7 => '7',
        8 => '8',
        9 => '9',
        10 => 'a',
        11 => 'b',
        12 => 'c',
        13 => 'd',
        14 => 'e',
        _ => 'f',
    }
}

/// Appends a description's characters in their written, escaped form.
fn push_escaped(out: &mut String, s: &str)
    ensures
        final(out)@ == old(out)@ + escape(s@),
{
    let n = s.unicode_len();
    let mut i: usize = 0;
    proof {
        assert(s@.skip(0) =~= s@);
    }
    while i < n
        invariant
            i <= n,
            n == s@.len(),
            old(out)@ + escape(s@) == out@ + escape(s@.skip(i as int)),
        decreases n - i,
    {
        let ghost pre = out@;
        let c = s.get_char(i);
        if c == '"' {
            push_char(out, '\\');
            push_char(out, '"');
        } else if c == '\\' {
            push_char(out, '\\');
            push_char(out, '\\');
        } else if c == '\n' {
            push_char(out, '\\');
            push_char(out, 'n');
        } else if c == '\t' {
            push_char(out, '\\');
            push_char(out, 't');
        } else if c == '\r' {
            push_char(out, '\\');
            push_char(out, 'r');
        } else if c == '\u{8}' {
            push_char(out, '\\');
            push_char(out, 'b');
        } else if c == '\u{c}' {
            push_char(out, '\\');
            push_char(out, 'f');
        } else if (c as u32) < 32 {
            let u = c as u32;
            push_char(out, '\\');
            push_char(out, 'u');
            push_char(out, '0');
            push_char(out, '0');
            let h1 = hex_digit_of(u / 16);
            push_char(out, h1);
            let h2 = hex_digit_of(u % 16);
            push_char(out, h2);
        } else {
            push_char(out, c);
        }
        proof {
            assert(out@ =~= pre + escape_char(c));
            assert(s@.skip(i as int).drop_first() =~= s@.skip(i as int + 1));
            assert(escape(s@.skip(i as int)) == escape_char(c) + escape(s@.skip(i as int + 1)));
            assert(pre + (escape_char(c) + escape(s@.skip(i as int + 1))) =~= (pre + escape_char(c))
                + escape(s@.skip(i as int + 1)));
        }
        i += 1;
    }
    proof {
        assert(s@.skip(n as int) =~= Seq::<char>::empty());
        assert(out@ + escape(s@.skip(n as int)) =~= out@);
    }
}

/// Appends the written object for one record.
fn push_object(out: &mut String, t: &Todo)
    ensures
        final(out)@ == old(out)@ + object_text(t@),
{
    out.append("{\n    \"description\": \"");
    push_escaped(out, t.description.as_str());
    out.append("\",\n    \"completed\": ");
    if t.completed {
        out.append("true");
    } else {
        out.append("false");
    }
    out.append("\n  }");
    proof {
        reveal_strlit("{\n    \"description\": \"");
        reveal_strlit("\",\n    \"completed\": ");
        reveal_strlit("true");
        reveal_strlit("false");
        reveal_strlit("\n  }");
        assert(("{\n    \"description\": \""@) =~= seq!['{', '\n', ' ', ' ', ' ', ' ', '"']
            + description_key() + seq!['"', ':', ' ', '"']);
        assert(("\",\n    \"completed\": "@) =~= seq!['"', ',', '\n', ' ', ' ', ' ', ' ', '"']
            + completed_key() + seq!['"', ':', ' ']);
        assert(("true"@) =~= seq!['t', 'r', 'u', 'e']);
        assert(("false"@) =~= seq!['f', 'a', 'l', 's', 'e']);
        assert(("\n  }"@) =~= seq!['\n', ' ', ' ', '}']);
        assert(out@ =~= old(out)@ + object_text(t@));
    }
}

/// Produces the storage text for `list`: the pretty-printed array of its
/// records, exactly as `todos_text` lays it out.
pub fn to_json(list: &Vec<Todo>) -> (out: String)
    ensures
        out@ == todos_text(list.deep_view()),
{
    let ghost dv = list.deep_view();
    if list.len() == 0 {
        let out = String::from_str("[]");
        proof {
            reveal_strlit("[]");
            assert(out@ =~= seq!['[', ']']);
        }
        out
    } else {
        let mut out = String::new();
        push_char(&mut out, '[');
        push_char(&mut out, '\n');
        let mut k: usize = 0;
        proof {
            assert(dv.skip(0) =~= dv);
            assert(out@ =~= seq!['[', '\n']);
            assert(todos_text(dv) =~= out@ + items_text(dv.skip(0)) + seq!['\n', ']']);
        }
        while k < list.len()
            invariant
                k <= list.len(),
                list.len() > 0,
                dv == list.deep_view(),
                dv.len() == list.len(),
                todos_text(dv) == out@ + items_text(dv.skip(k as int)) + seq!['\n', ']'],
            decreases list.len() - k,
        {
            let ghost pre = out@;
            push_char(&mut out, ' ');
            push_char(&mut out, ' ');
            push_object(&mut out, &list[k]);
            proof {
                assert(dv[k as int] == list@[k as int]@);
            }
            if k + 1 < list.len() {
                push_char(&mut out, ',');
                push_char(&mut out, '\n');
                proof {
                    assert(dv.skip(k as int).drop_first() =~= dv.skip(k as int + 1));
                    assert(items_text(dv.skip(k as int)) == seq![' ', ' '] + object_text(
                        dv[k as int],
                    ) + seq![',', '\n'] + items_text(dv.skip(k as int + 1)));
                    assert(out@ =~= pre + (seq![' ', ' '] + object_text(dv[k as int]) + seq![
                        ',',
                        '\n',
                    ]));
                    assert(pre + (seq![' ', ' '] + object_text(dv[k as int]) + seq![',', '\n'])
                        + items_text(dv.skip(k as int + 1)) =~= pre + items_text(
                        dv.skip(k as int),
                    ));
                }
            } else {
                proof {
                    assert(dv.skip(k as int).len() == 1);
                    assert(items_text(dv.skip(k as int)) == seq![' ', ' '] + object_text(
                        dv[k as int],
                    ));
                    assert(dv.skip(k as int + 1) =~= Seq::<TodoView>::empty());
                    assert(out@ =~= pre + items_text(dv.skip(k as int)));
                    assert(out@ + items_text(dv.skip(k as int + 1)) =~= out@);
                }
            }
            k += 1;
        }
        push_char(&mut out, '\n');
        push_char(&mut out, ']');
        proof {
            assert(dv.skip(list.len() as int) =~= Seq::<TodoView>::empty());
            assert(items_text(dv.skip(list.len() as int)) == Seq::<char>::empty());
            assert(out@ =~= todos_text(dv));
        }
        out
    }
}

// ---------------------------------------------------------------------------
// The executable parser: it walks the text by character position and agrees
// with the grammar above on the suffix that starts at that position.
// ---------------------------------------------------------------------------
/// Whether `c` is a whitespace character, matching `is_ws`.
fn is_ws_char(c: char) -> (r: bool)
    ensures
        r == is_ws(c),
{
    c == ' ' || c == '\n' || c == '\t' || c == '\r'
}

/// Advances past whitespace: the suffix at the returned position is the
/// whitespace-skipped suffix at `i`.
fn skip_ws_from(s: &str, n: usize, i: usize) -> (j: usize)
    requires
        n == s@.len(),
        i <= n,
    ensures
        i <= j <= n,
        skip_ws(s@.skip(i as int)) == s@.skip(j as int),
{
    let mut j = i;
    while j < n && is_ws_char(s.get_char(j))
        invariant
            i <= j <= n,
            n == s@.len(),
            skip_ws(s@.skip(i as int)) == skip_ws(s@.skip(j as int)),
        decreases n - j,
    {
        proof {
            assert(s@.skip(j as int).drop_first() =~= s@.skip(j as int + 1));
        }
        j += 1;
    }
    proof {
        assert(skip_ws(s@.skip(j as int)) == s@.skip(j as int));
    }
    j
}

/// The hexadecimal value of `c`, matching `hex_val`.
fn hex_value(c: char) -> (v: Option<u8>)
    ensures
        match v {
            Some(d) => d < 16 && hex_val(c) == d as int,
            None => hex_val(c) < 0,
        },
{
    let u = c as u32;
    if '0' as u32 <= u && u <= '9' as u32 {
        Some((u - '0' as u32) as u8)
    } else if 'a' as u32 <= u && u <= 'f' as u32 {
        Some((u - 'a' as u32 + 10) as u8)
    } else if 'A' as u32 <= u && u <= 'F' as u32 {
        Some((u - 'A' as u32 + 10) as u8)
    } else {
        None
    }
}

/// The character a two-character escape denotes, matching `unescaped`.
fn unescape_char(c: char) -> (r: Option<char>)
    ensures
        r == unescaped(c),
{
    if c == '"' {
        Some('"')
    } else if c == '\\' {
        Some('\\')
    } else if c == '/' {
        Some('/')
    } else if c == 'n' {
        Some('\n')
    } else if c == 't' {
        Some('\t')
    } else if c == 'r' {
        Some('\r')
    } else if c == 'b' {
        Some('\u{8}')
    } else if c == 'f' {
        Some('\u{c}')
    } else {
        None
    }
}

/// Parses a string literal's remainder after the opening quote, from
/// position `i`, agreeing with `parse_string_body` on the suffix at `i`.
fn parse_string_body_from(s: &str, n: usize, i: usize) -> (r: Option<(String, usize)>)
    requires
        n == s@.len(),
        i <= n,
    ensures
        match r {
            Some(p) => i <= p.1 <= n && parse_string_body(s@.skip(i as int)) == Some(
                (p.0@, s@.skip(p.1 as int)),
            ),
            None => parse_string_body(s@.skip(i as int)) is None,
        },
{
    let mut acc = String::new();
    let mut j = i;
    while j < n
        invariant
            i <= j <= n,
            n == s@.len(),
            parse_string_body(s@.skip(i as int)) == (match parse_string_body(
                s@.skip(j as int),
            ) {
                Some((t, rest)) => Some((acc@ + t, rest)),
                None => None,
            }),
        decreases n - j,
    {
        let c = s.get_char(j);
        if c == '"' {
            proof {
                assert(s@.skip(j as int).drop_first() =~= s@.skip(j as int + 1));
                assert(acc@ + Seq::<char>::empty() =~= acc@);
            }
            return Some((acc, j + 1));
        } else if c == '\\' {
            if j + 1 >= n {
                return None;
            }
            let e = s.get_char(j + 1);
            if e == 'u' {
                if n - j < 6 {
                    return None;
                }
                let d2 = s.get_char(j + 2);
                let d3 = s.get_char(j + 3);
                let h4 = s.get_char(j + 4);
                let h5 = s.get_char(j + 5);
                if d2 != '0' || d3 != '0' {
                    return None;
                }
                let v4 = hex_value(h4);
                let v5 = hex_value(h5);
                match (v4, v5) {
                    (Some(a), Some(b)) => {
                        let val: u8 = a * 16 + b;
                        let ch = val as char;
                        let ghost accpre = acc@;
                        push_char(&mut acc, ch);
                        proof {
                            let sj = s@.skip(j as int);
                            assert(sj.skip(6) =~= s@.skip(j as int + 6));
                            assert((16 * hex_val(h4) + hex_val(h5)) as u8 == val);
                            assert(parse_string_body(sj) == (match parse_string_body(
                                s@.skip(j as int + 6),
                            ) {
                                Some((t, rest)) => Some((seq![ch] + t, rest)),
                                None => None,
                            }));
                            match parse_string_body(s@.skip(j as int + 6)) {
                                Some((t, rest)) => {
                                    assert(accpre + (seq![ch] + t) =~= (accpre + seq![ch]) + t);
                                },
                                None => {},
                            }
                        }
                        j += 6;
                    },
                    _ => {
                        return None;
                    },
                }
            } else {
                match unescape_char(e) {
                    Some(ch) => {
                        let ghost accpre = acc@;
                        push_char(&mut acc, ch);
                        proof {
                            let sj = s@.skip(j as int);
                            assert(sj.skip(2) =~= s@.skip(j as int + 2));
                            assert(parse_string_body(sj) == (match parse_string_body(
                                s@.skip(j as int + 2),
                            ) {
                                Some((t, rest)) => Some((seq![ch] + t, rest)),
                                None => None,
                            }));
                            match parse_string_body(s@.skip(j as int + 2)) {
                                Some((t, rest)) => {
                                    assert(accpre + (seq![ch] + t) =~= (accpre + seq![ch]) + t);
                                },
                                None => {},
                            }
                        }
                        j += 2;
                    },
                    None => {
                        return None;
                    },
                }
            }
        } else if (c as u32) < 32 {
            return None;
        } else {
            let ghost accpre = acc@;
            push_char(&mut acc, c);
            proof {
                let sj = s@.skip(j as int);
                assert(sj.drop_first() =~= s@.skip(j as int + 1));
                assert(parse_string_body(sj) == (match parse_string_body(s@.skip(j as int + 1)) {
                    Some((t, rest)) => Some((seq![c] + t, rest)),
                    None => None,
                }));
                match parse_string_body(s@.skip(j as int + 1)) {
                    Some((t, rest)) => {
                        assert(accpre + (seq![c] + t) =~= (accpre + seq![c]) + t);
                    },
                    None => {},
                }
            }
            j += 1;
        }
    }
    None
}

/// Parses a quoted string literal from position `i`, agreeing with
/// `parse_string` on the suffix at `i`.
fn parse_string_from(s: &str, n: usize, i: usize) -> (r: Option<(String, usize)>)
    requires
        n == s@.len(),
        i <= n,
    ensures
        match r {
            Some(p) => i < p.1 <= n && parse_string(s@.skip(i as int)) == Some(
                (p.0@, s@.skip(p.1 as int)),
            ),
            None => parse_string(s@.skip(i as int)) is None,
        },
{
    if i < n {
        let c = s.get_char(i);
        if c == '"' {
            proof {
                assert(s@.skip(i as int).drop_first() =~= s@.skip(i as int + 1));
            }
            parse_string_body_from(s, n, i + 1)
        } else {
            None
        }
    } else {
        None
    }
}

/// Parses `true` or `false` from position `i`, agreeing with `parse_bool`
/// on the suffix at `i`.
fn parse_bool_from(s: &str, n: usize, i: usize) -> (r: Option<(bool, usize)>)
    requires
        n == s@.len(),
        i <= n,
    ensures
        match r {
            Some(p) => i < p.1 <= n && parse_bool(s@.skip(i as int)) == Some(
                (p.0, s@.skip(p.1 as int)),
            ),
            None => parse_bool(s@.skip(i as int)) is None,
        },
{
    if n - i >= 4 && s.get_char(i) == 't' && s.get_char(i + 1) == 'r' && s.get_char(i + 2) == 'u'
        && s.get_char(i + 3) == 'e' {
        proof {
            assert(s@.skip(i as int).skip(4) =~= s@.skip(i as int + 4));
        }
        Some((true, i + 4))
    } else if n - i >= 5 && s.get_char(i) == 'f' && s.get_char(i + 1) == 'a' && s.get_char(i + 2)
        == 'l' && s.get_char(i + 3) == 's' && s.get_char(i + 4) == 'e' {
        proof {
            assert(s@.skip(i as int).skip(5) =~= s@.skip(i as int + 5));
        }
        Some((false, i + 5))
    } else {
        None
    }
}

/// One parsed member of a record object, carrying its executable value.
enum ParsedField {
    Description(String),
    Completed(bool),
}

impl View for ParsedField {
    type V = Field;

    closed spec fn view(&self) -> Field {
        match self {
            ParsedField::Description(d) => Field::Description(d@),
            ParsedField::Completed(b) => Field::Completed(*b),
        }
    }
}

/// Parses one object member from position `i`, agreeing with `parse_field`
/// on the suffix at `i`.
fn parse_field_from(s: &str, n: usize, i: usize) -> (r: Option<(ParsedField, usize)>)
    requires
        n == s@.len(),
        i <= n,
    ensures
        match r {
            Some(p) => i < p.1 <= n && parse_field(s@.skip(i as int)) == Some(
                (p.0@, s@.skip(p.1 as int)),
            ),
            None => parse_field(s@.skip(i as int)) is None,
        },
{
    match parse_string_from(s, n, i) {
        None => None,
        Some((key, j1)) => {
            let j2 = skip_ws_from(s, n, j1);
            if j2 >= n {
                return None;
            }
            let c = s.get_char(j2);
            if c != ':' {
                return None;
            }
            let j3 = skip_ws_from(s, n, j2 + 1);
            proof {
                assert(s@.skip(j2 as int).drop_first() =~= s@.skip(j2 as int + 1));
            }
            let dk = String::from_str("description");
            proof {
                reveal_strlit("description");
                assert(("description"@) =~= description_key());
            }
            if key == dk {
                match parse_string_from(s, n, j3) {
                    Some((d, j4)) => Some((ParsedField::Description(d), j4)),
                    None => None,
                }
            } else {
                let ck = String::from_str("completed");
                proof {
                    reveal_strlit("completed");
                    assert(("completed"@) =~= completed_key());
                }
                if key == ck {
                    match parse_bool_from(s, n, j3) {
                        Some((b, j4)) => Some((ParsedField::Completed(b), j4)),
                        None => None,
                    }
                } else {
                    None
                }
            }
        },
    }
}

/// Parses one record object from position `i`, agreeing with `parse_object`
/// on the suffix at `i`.
fn parse_object_from(s: &str, n: usize, i: usize) -> (r: Option<(Todo, usize)>)
    requires
        n == s@.len(),
        i <= n,
    ensures
        match r {
            Some(p) => i < p.1 <= n && parse_object(s@.skip(i as int)) == Some(
                (p.0@, s@.skip(p.1 as int)),
            ),
            None => parse_object(s@.skip(i as int)) is None,
        },
{
    if i >= n {
        return None;
    }
    if s.get_char(i) != '{' {
        return None;
    }
    let j0 = skip_ws_from(s, n, i + 1);
    proof {
        assert(s@.skip(i as int).drop_first() =~= s@.skip(i as int + 1));
    }
    match parse_field_from(s, n, j0) {
        None => None,
        Some((f1, j1)) => {
            let j2 = skip_ws_from(s, n, j1);
            if j2 >= n {
                return None;
            }
            if s.get_char(j2) != ',' {
                return None;
            }
            let j3 = skip_ws_from(s, n, j2 + 1);
            proof {
                assert(s@.skip(j2 as int).drop_first() =~= s@.skip(j2 as int + 1));
            }
            match parse_field_from(s, n, j3) {
                None => None,
                Some((f2, j4)) => {
                    let j5 = skip_ws_from(s, n, j4);
                    if j5 >= n {
                        return None;
                    }
                    if s.get_char(j5) != '}' {
                        return None;
                    }
                    proof {
                        assert(s@.skip(j5 as int).drop_first() =~= s@.skip(j5 as int + 1));
                    }
                    match (f1, f2) {
                        (ParsedField::Description(d), ParsedField::Completed(b)) => Some(
                            (Todo { description: d, completed: b }, j5 + 1),
                        ),
                        (ParsedField::Completed(b), ParsedField::Description(d)) => Some(
                            (Todo { description: d, completed: b }, j5 + 1),
                        ),
                        _ => None,
                    }
                },
            }
        },
    }
}

/// Parses the comma-separated records and the closing bracket from position
/// `i`, agreeing with `parse_elements` on the suffix at `i`.
fn parse_elements_from(s: &str, n: usize, i: usize) -> (r: Option<(Vec<Todo>, usize)>)
    requires
        n == s@.len(),
        i <= n,
    ensures
        match r {
            Some(p) => i < p.1 <= n && parse_elements(s@.skip(i as int)) == Some(
                (p.0.deep_view(), s@.skip(p.1 as int)),
            ),
            None => parse_elements(s@.skip(i as int)) is None,
        },
{
    let mut acc: Vec<Todo> = Vec::new();
    let mut pos = i;
    loop
        invariant
            i <= pos <= n,
            n == s@.len(),
            parse_elements(s@.skip(i as int)) == (match parse_elements(s@.skip(pos as int)) {
                Some((l, rest)) => Some((acc.deep_view() + l, rest)),
                None => None,
            }),
        decreases n - pos,
    {
        match parse_object_from(s, n, pos) {
            None => {
                return None;
            },
            Some((t, p1)) => {
                let p2 = skip_ws_from(s, n, p1);
                if p2 >= n {
                    return None;
                }
                let c = s.get_char(p2);
                if c == ']' {
                    let ghost accdv = acc.deep_view();
                    acc.push(t);
                    proof {
                        assert(s@.skip(p2 as int).drop_first() =~= s@.skip(p2 as int + 1));
                        assert(parse_elements(s@.skip(pos as int)) == Some(
                            (seq![t@], s@.skip(p2 as int + 1)),
                        ));
                        assert(acc.deep_view() =~= accdv + seq![t@]);
                    }
                    return Some((acc, p2 + 1));
                } else if c == ',' {
                    let ghost accdv = acc.deep_view();
                    acc.push(t);
                    let p3 = skip_ws_from(s, n, p2 + 1);
                    proof {
                        assert(s@.skip(p2 as int).drop_first() =~= s@.skip(p2 as int + 1));
                        assert(parse_elements(s@.skip(pos as int)) == (match parse_elements(
                            s@.skip(p3 as int),
                        ) {
                            Some((l, rest)) => Some((seq![t@] + l, rest)),
                            None => None,
                        }));
                        assert(acc.deep_view() =~= accdv + seq![t@]);
                        match parse_elements(s@.skip(p3 as int)) {
                            Some((l, rest)) => {
                                assert(accdv + (seq![t@] + l) =~= (accdv + seq![t@]) + l);
                            },
                            None => {},
                        }
                    }
                    pos = p3;
                } else {
                    return None;
                }
            },
        }
    }
}

/// Parses a whole array of records from position `i`, agreeing with
/// `parse_array` on the suffix at `i`.
fn parse_array_from(s: &str, n: usize, i: usize) -> (r: Option<(Vec<Todo>, usize)>)
    requires
        n == s@.len(),
        i <= n,
    ensures
        match r {
            Some(p) => i < p.1 <= n && parse_array(s@.skip(i as int)) == Some(
                (p.0.deep_view(), s@.skip(p.1 as int)),
            ),
            None => parse_array(s@.skip(i as int)) is None,
        },
{
    if i >= n {
        return None;
    }
    if s.get_char(i) != '[' {
        return None;
    }
    let j1 = skip_ws_from(s, n, i + 1);
    proof {
        assert(s@.skip(i as int).drop_first() =~= s@.skip(i as int + 1));
    }
    if j1 < n && s.get_char(j1) == ']' {
        let empty: Vec<Todo> = Vec::new();
        proof {
            assert(s@.skip(j1 as int).drop_first() =~= s@.skip(j1 as int + 1));
            assert(empty.deep_view() =~= Seq::<TodoView>::empty());
        }
        Some((empty, j1 + 1))
    } else {
        parse_elements_from(s, n, j1)
    }
}

/// Reads a storage text: the list it denotes, or nothing when the text is
/// not one well-formed array of records.
pub fn from_json(s: &str) -> (r: Option<Vec<Todo>>)
    ensures
        match r {
            Some(l) => parse_todos(s@) == Some(l.deep_view()),
            None => parse_todos(s@) is None,
        },
{
    let n = s.unicode_len();
    let j0 = skip_ws_from(s, n, 0);
    proof {
        assert(s@.skip(0) =~= s@);
    }
    match parse_array_from(s, n, j0) {
        None => None,
        Some((l, j1)) => {
            let j2 = skip_ws_from(s, n, j1);
            if j2 == n {
                Some(l)
            } else {
                None
            }
        },
    }
}

} // verus!
