use crate::json::bool_text;
use crate::json::completed_key;
use crate::json::description_key;
use crate::json::escape;
use crate::json::escape_char;
use crate::json::hex_digit;
use crate::json::hex_val;
use crate::json::is_control;
use crate::json::is_ws;
use crate::json::items_text;
use crate::json::object_text;
use crate::json::parse_array;
use crate::json::parse_elements;
use crate::json::parse_object;
use crate::json::parse_string_body;
use crate::json::parse_todos;
use crate::json::skip_ws;
use crate::json::todos_text;
use crate::json::unescaped;
use crate::json::Field;
use crate::record::TodoView;
use vstd::arithmetic::div_mod::lemma_fundamental_div_mod;
use vstd::prelude::*;

verus! {

/// Reading a written hexadecimal digit gives back its value.
proof fn lemma_hex_val_digit(d: int)
    requires
        0 <= d < 16,
    ensures
        hex_val(hex_digit(d)) == d,
{
}

/// Skipping whitespace consumes an all-whitespace prefix whole, and stops
/// at a rest that does not begin with whitespace.
proof fn lemma_skip_ws_all(w: Seq<char>, r: Seq<char>)
    requires
        forall|k: int| 0 <= k < w.len() ==> is_ws(w[k]),
        r.len() == 0 || !is_ws(r[0]),
    ensures
        skip_ws(w + r) == r,
    decreases w.len(),
{
    if w.len() == 0 {
        assert(w + r =~= r);
    } else {
        assert((w + r)[0] == w[0]);
        assert((w + r).drop_first() =~= w.drop_first() + r);
        lemma_skip_ws_all(w.drop_first(), r);
    }
}

/// A text of ordinary characters is written as itself: nothing is escaped.
proof fn lemma_escape_plain(d: Seq<char>)
    requires
        forall|k: int| 0 <= k < d.len() ==> d[k] != '"' && d[k] != '\\' && !is_control(d[k]),
    ensures
        escape(d) == d,
    decreases d.len(),
{
    if d.len() == 0 {
        assert(escape(d) =~= d);
    } else {
        assert(escape_char(d[0]) == seq![d[0]]);
        lemma_escape_plain(d.drop_first());
        assert(escape(d) =~= d);
    }
}

/// Reading a written string literal gives back exactly the text that was
/// escaped into it, and leaves exactly what follows the closing quote.
proof fn lemma_parse_escaped(d: Seq<char>, rest: Seq<char>)
    ensures
        parse_string_body(escape(d) + seq!['"'] + rest) == Some((d, rest)),
    decreases d.len(),
{
    if d.len() == 0 {
        let s = seq!['"'] + rest;
        assert(escape(d) + seq!['"'] + rest =~= s);
        assert(s[0] == '"');
        assert(s.drop_first() =~= rest);
        assert(d =~= Seq::<char>::empty());
    } else {
        let c = d[0];
        let dt = d.drop_first();
        lemma_parse_escaped(dt, rest);
        let tail = escape(dt) + seq!['"'] + rest;
        let e = escape_char(c);
        let s = escape(d) + seq!['"'] + rest;
        assert(escape(d) == e + escape(dt));
        assert(s =~= e + tail);
        assert(seq![c] + dt =~= d);
        if c == '"' {
            assert(s[0] == '\\' && s[1] == '"');
            assert(s.skip(2) =~= tail);
            assert(parse_string_body(s) == Some((d, rest)));
        } else if c == '\\' {
            assert(s[0] == '\\' && s[1] == '\\');
            assert(s.skip(2) =~= tail);
            assert(parse_string_body(s) == Some((d, rest)));
        } else if c == '\n' {
            assert(s[0] == '\\' && s[1] == 'n');
            assert(s.skip(2) =~= tail);
            assert(parse_string_body(s) == Some((d, rest)));
        } else if c == '\t' {
            assert(s[0] == '\\' && s[1] == 't');
            assert(s.skip(2) =~= tail);
            assert(parse_string_body(s) == Some((d, rest)));
        } else if c == '\r' {
            assert(s[0] == '\\' && s[1] == 'r');
            assert(s.skip(2) =~= tail);
            assert(parse_string_body(s) == Some((d, rest)));
        } else if c == '\u{8}' {
            assert(s[0] == '\\' && s[1] == 'b');
            assert(s.skip(2) =~= tail);
            assert(parse_string_body(s) == Some((d, rest)));
        } else if c == '\u{c}' {
            assert(s[0] == '\\' && s[1] == 'f');
            assert(s.skip(2) =~= tail);
            assert(parse_string_body(s) == Some((d, rest)));
        } else if is_control(c) {
            let u = (c as u32) as int;
            assert(e == seq!['\\', 'u', '0', '0', hex_digit(u / 16), hex_digit(u % 16)]);
            assert(s.len() >= 6);
            assert(s[0] == '\\' && s[1] == 'u' && s[2] == '0' && s[3] == '0');
            assert(s[4] == hex_digit(u / 16) && s[5] == hex_digit(u % 16));
            assert(0 <= u < 32);
            lemma_hex_val_digit(u / 16);
            lemma_hex_val_digit(u % 16);
            lemma_fundamental_div_mod(u, 16);
            assert(16 * hex_val(s[4]) + hex_val(s[5]) == u);
            vstd::utf8::char_u32_cast(c, c as u32);
            assert(((c as u32) as u8) as char == c);
            assert((16 * hex_val(s[4]) + hex_val(s[5])) as u8 == (c as u32) as u8);
            assert(((16 * hex_val(s[4]) + hex_val(s[5])) as u8) as char == c);
            assert(s.skip(6) =~= tail);
            assert(parse_string_body(s) == Some((d, rest)));
        } else {
            assert(e == seq![c]);
            assert(s[0] == c);
            assert(s.drop_first() =~= tail);
            assert(parse_string_body(s) == Some((d, rest)));
        }
    }
}

/// Neither member name needs escaping when written.
proof fn lemma_keys_plain()
    ensures
        escape(description_key()) == description_key(),
        escape(completed_key()) == completed_key(),
{
    assert(forall|k: int|
        0 <= k < description_key().len() ==> description_key()[k] != '"' && description_key()[k]
            != '\\' && !is_control(description_key()[k]));
    assert(forall|k: int|
        0 <= k < completed_key().len() ==> completed_key()[k] != '"' && completed_key()[k] != '\\'
            && !is_control(completed_key()[k]));
    lemma_escape_plain(description_key());
    lemma_escape_plain(completed_key());
}

/// Reading a written record object gives back exactly that record, and
/// leaves exactly what follows its closing brace.
#[verifier::rlimit(100)]
#[verifier::spinoff_prover]
proof fn lemma_parse_object_text(t: TodoView, rest: Seq<char>)
    ensures
        parse_object(object_text(t) + rest) == Some((t, rest)),
{
    let k1 = description_key();
    let k2 = completed_key();
    let e = escape(t.description);
    let b = bool_text(t.completed);
    lemma_keys_plain();

    // The rest of the text after each stop the parser makes, back to front.
    let g9 = seq!['}'] + rest;
    let g8 = seq!['\n', ' ', ' '] + g9;
    let g7 = b + g8;
    let g6 = seq![':', ' '] + g7;
    let g5 = seq!['"'] + k2 + (seq!['"'] + g6);
    let g4 = seq![',', '\n', ' ', ' ', ' ', ' '] + g5;
    let g3 = seq!['"'] + (e + (seq!['"'] + g4));
    let g2 = seq![':', ' '] + g3;
    let g1 = seq!['"'] + k1 + (seq!['"'] + g2);
    let s = object_text(t) + rest;

    assert(s =~= seq!['{', '\n', ' ', ' ', ' ', ' '] + g1);
    assert(s[0] == '{');
    assert(s.drop_first() =~= seq!['\n', ' ', ' ', ' ', ' '] + g1);
    lemma_skip_ws_all(seq!['\n', ' ', ' ', ' ', ' '], g1);
    assert(skip_ws(s.drop_first()) == g1);

    // First member: the description.
    assert(g1[0] == '"');
    assert(g1.drop_first() =~= k1 + seq!['"'] + g2);
    lemma_parse_escaped(k1, g2);
    assert(k1 + seq!['"'] + g2 =~= escape(k1) + seq!['"'] + g2);
    assert(parse_string_body(g1.drop_first()) == Some((k1, g2)));
    assert(g2[0] == ':');
    assert(skip_ws(g2) == g2);
    assert(g2.drop_first() =~= seq![' '] + g3);
    lemma_skip_ws_all(seq![' '], g3);
    assert(skip_ws(g2.drop_first()) == g3);
    assert(g3[0] == '"');
    assert(g3.drop_first() =~= e + seq!['"'] + g4);
    lemma_parse_escaped(t.description, g4);
    assert(parse_string_body(g3.drop_first()) == Some((t.description, g4)));
    assert(crate::json::parse_field(g1) == Some((Field::Description(t.description), g4)));

    // The comma between the members.
    assert(g4[0] == ',');
    assert(skip_ws(g4) == g4);
    assert(g4.drop_first() =~= seq!['\n', ' ', ' ', ' ', ' '] + g5);
    lemma_skip_ws_all(seq!['\n', ' ', ' ', ' ', ' '], g5);
    assert(skip_ws(g4.drop_first()) == g5);

    // Second member: the completion flag.
    assert(g5[0] == '"');
    assert(g5.drop_first() =~= k2 + seq!['"'] + g6);
    lemma_parse_escaped(k2, g6);
    assert(k2 + seq!['"'] + g6 =~= escape(k2) + seq!['"'] + g6);
    assert(parse_string_body(g5.drop_first()) == Some((k2, g6)));
    assert(k2.len() != k1.len());
    assert(k2 != k1);
    assert(g6[0] == ':');
    assert(skip_ws(g6) == g6);
    assert(g6.drop_first() =~= seq![' '] + g7);
    assert(g7[0] == b[0]);
    assert(!is_ws(b[0]));
    lemma_skip_ws_all(seq![' '], g7);
    assert(skip_ws(g6.drop_first()) == g7);
    if t.completed {
        assert(g7 =~= seq!['t', 'r', 'u', 'e'] + g8);
        assert(g7.skip(4) =~= g8);
        assert(crate::json::parse_bool(g7) == Some((true, g8)));
    } else {
        assert(g7 =~= seq!['f', 'a', 'l', 's', 'e'] + g8);
        assert(g7.skip(5) =~= g8);
        assert(crate::json::parse_bool(g7) == Some((false, g8)));
    }
    assert(crate::json::parse_field(g5) == Some((Field::Completed(t.completed), g8)));

    // The closing brace.
    lemma_skip_ws_all(seq!['\n', ' ', ' '], g9);
    assert(g8 =~= seq!['\n', ' ', ' '] + g9);
    assert(skip_ws(g8) == g9);
    assert(g9[0] == '}');
    assert(g9.drop_first() =~= rest);
    assert(parse_object(s) == Some((t, rest)));
}

/// Reading the written items of a non-empty list, up to and past the
/// closing bracket, gives back exactly that list.
#[verifier::rlimit(100)]
#[verifier::spinoff_prover]
proof fn lemma_parse_items(l: Seq<TodoView>, rest: Seq<char>)
    requires
        l.len() >= 1,
    ensures
        skip_ws(items_text(l) + seq!['\n', ']'] + rest).len() > 0,
        skip_ws(items_text(l) + seq!['\n', ']'] + rest)[0] == '{',
        parse_elements(skip_ws(items_text(l) + seq!['\n', ']'] + rest)) == Some((l, rest)),
    decreases l.len(),
{
    let whole = items_text(l) + seq!['\n', ']'] + rest;
    if l.len() == 1 {
        let after = seq!['\n', ']'] + rest;
        assert(whole =~= seq![' ', ' '] + (object_text(l[0]) + after));
        assert(object_text(l[0])[0] == '{');
        assert((object_text(l[0]) + after)[0] == '{');
        lemma_skip_ws_all(seq![' ', ' '], object_text(l[0]) + after);
        assert(skip_ws(whole) == object_text(l[0]) + after);
        lemma_parse_object_text(l[0], after);
        let g = seq![']'] + rest;
        assert(after =~= seq!['\n'] + g);
        lemma_skip_ws_all(seq!['\n'], g);
        assert(skip_ws(after) == g);
        assert(g[0] == ']');
        assert(g.drop_first() =~= rest);
        assert(seq![l[0]] =~= l);
        assert(parse_elements(skip_ws(whole)) == Some((l, rest)));
    } else {
        let lt = l.drop_first();
        let inner = items_text(lt) + seq!['\n', ']'] + rest;
        lemma_parse_items(lt, rest);
        let after = seq![',', '\n'] + inner;
        assert(whole =~= seq![' ', ' '] + (object_text(l[0]) + after));
        assert((object_text(l[0]) + after)[0] == '{');
        lemma_skip_ws_all(seq![' ', ' '], object_text(l[0]) + after);
        assert(skip_ws(whole) == object_text(l[0]) + after);
        lemma_parse_object_text(l[0], after);
        assert(after[0] == ',');
        assert(skip_ws(after) == after);
        assert(after.drop_first() =~= seq!['\n'] + inner);
        // Skipping from the newline runs on into the skipped inner items.
        assert((seq!['\n'] + inner)[0] == '\n');
        assert((seq!['\n'] + inner).drop_first() =~= inner);
        assert(skip_ws(seq!['\n'] + inner) == skip_ws(inner));
        assert(parse_elements(skip_ws(after.drop_first())) == Some((lt, rest)));
        assert(seq![l[0]] + lt =~= l);
        assert(parse_elements(skip_ws(whole)) == Some((l, rest)));
    }
}

/// Round trip: the storage text written for any list of records parses back
/// to exactly that list, whatever the descriptions hold and however long the
/// list is.
pub proof fn lemma_round_trip(l: Seq<TodoView>)
    ensures
        parse_todos(todos_text(l)) == Some(l),
{
    let text = todos_text(l);
    if l.len() == 0 {
        assert(text == seq!['[', ']']);
        assert(!is_ws(text[0]));
        assert(skip_ws(text) == text);
        let inner = seq![']'];
        assert(text.drop_first() =~= inner);
        assert(!is_ws(inner[0]));
        assert(skip_ws(inner) == inner);
        assert(inner.drop_first() =~= Seq::<char>::empty());
        assert(parse_array(text) == Some((Seq::<TodoView>::empty(), Seq::<char>::empty())));
        assert(skip_ws(Seq::<char>::empty()).len() == 0);
        assert(Seq::<TodoView>::empty() =~= l);
    } else {
        let whole = items_text(l) + seq!['\n', ']'] + Seq::<char>::empty();
        lemma_parse_items(l, Seq::<char>::empty());
        let s1 = skip_ws(whole);
        assert(!is_ws(text[0]));
        assert(skip_ws(text) == text);
        assert(text[0] == '[');
        assert(text.drop_first() =~= seq!['\n'] + whole);
        assert((seq!['\n'] + whole).drop_first() =~= whole);
        assert(skip_ws(seq!['\n'] + whole) == skip_ws(whole));
        assert(skip_ws(text.drop_first()) == s1);
        assert(s1[0] == '{');
        assert(s1[0] != ']');
        assert(parse_array(text) == Some((l, Seq::<char>::empty())));
        assert(skip_ws(Seq::<char>::empty()).len() == 0);
    }
}

} // verus!
