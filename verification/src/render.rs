use crate::record::Todo;
use crate::record::TodoView;
use crate::text::decimal;
use crate::text::push_char;
use crate::text::push_decimal;
use vstd::prelude::*;

verus! {

/// The status marker that a listing shows: "[x]" for a completed record,
/// "[ ]" otherwise.
pub open spec fn status_marker(completed: bool) -> Seq<char> {
    if completed {
        seq!['[', 'x', ']']
    } else {
        seq!['[', ' ', ']']
    }
}

/// One listing line for the record at position `i`: the position in decimal,
/// ": ", the description, a space, the status marker, and a newline.
pub open spec fn render_line(i: nat, t: TodoView) -> Seq<char> {
    decimal(i) + seq![':', ' '] + t.description + seq![' '] + status_marker(t.completed) + seq![
        '\n',
    ]
}

/// The listing of the records of `l`, the first standing at position `i`.
pub open spec fn render_from(l: Seq<TodoView>, i: nat) -> Seq<char>
    decreases l.len(),
{
    if l.len() == 0 {
        Seq::empty()
    } else {
        render_line(i, l[0]) + render_from(l.drop_first(), i + 1)
    }
}

/// The full listing of a list: one line per record, in list order, each
/// showing its position, description and status marker.
pub open spec fn listing(l: Seq<TodoView>) -> Seq<char> {
    render_from(l, 0)
}

/// Produces the listing of `list`: for each record, in order, a line holding
/// its position, its description, and "[x]" or "[ ]"; nothing else.
pub fn render_list(list: &Vec<Todo>) -> (out: String)
    ensures
        out@ == listing(list.deep_view()),
{
    let ghost dv = list.deep_view();
    let mut out = String::new();
    let mut k: usize = 0;
    proof {
        assert(dv.skip(0) =~= dv);
    }
    while k < list.len()
        invariant
            k <= list.len(),
            dv == list.deep_view(),
            dv.len() == list.len(),
            render_from(dv, 0) == out@ + render_from(dv.skip(k as int), k as nat),
        decreases list.len() - k,
    {
        let ghost out0 = out@;
        push_decimal(&mut out, k);
        push_char(&mut out, ':');
        push_char(&mut out, ' ');
        out.append(list[k].description.as_str());
        push_char(&mut out, ' ');
        if list[k].completed {
            push_char(&mut out, '[');
            push_char(&mut out, 'x');
            push_char(&mut out, ']');
        } else {
            push_char(&mut out, '[');
            push_char(&mut out, ' ');
            push_char(&mut out, ']');
        }
        push_char(&mut out, '\n');
        proof {
            assert(dv[k as int] == list@[k as int]@);
            assert(out@ =~= out0 + render_line(k as nat, dv[k as int]));
            assert(dv.skip(k as int).drop_first() =~= dv.skip(k as int + 1));
            assert(render_from(dv.skip(k as int), k as nat) == render_line(k as nat, dv[k as int])
                + render_from(dv.skip(k as int + 1), (k + 1) as nat));
            assert(out0 + (render_line(k as nat, dv[k as int]) + render_from(
                dv.skip(k as int + 1),
                (k + 1) as nat,
            )) =~= (out0 + render_line(k as nat, dv[k as int])) + render_from(
                dv.skip(k as int + 1),
                (k + 1) as nat,
            ));
        }
        k += 1;
    }
    proof {
        assert(dv.skip(list.len() as int) =~= Seq::<TodoView>::empty());
        assert(out@ =~= out@ + render_from(dv.skip(list.len() as int), list.len() as nat));
    }
    out
}

} // verus!
