use crate::record::Todo;
use crate::record::TodoView;
use vstd::prelude::*;

verus! {

/// Appends a new, uncompleted record with the given description to the end of
/// the list; every record already present keeps its place.
pub fn add(list: &mut Vec<Todo>, description: String)
    ensures
        final(list).deep_view() == old(list).deep_view().push(
            (TodoView { description: description@, completed: false }),
        ),
{
    list.push(Todo::new(description));
    assert(list.deep_view() =~= old(list).deep_view().push(
        (TodoView { description: description@, completed: false }),
    ));
}

/// Removes the record at `index` and returns it, shifting later records left;
/// an out-of-range index leaves the list unchanged and returns nothing.
pub fn remove(list: &mut Vec<Todo>, index: usize) -> (removed: Option<Todo>)
    ensures
        index < old(list)@.len() ==> {
            &&& removed matches Some(t) && t@ == old(list).deep_view()[index as int]
            &&& final(list).deep_view() == old(list).deep_view().remove(index as int)
        },
        index >= old(list)@.len() ==> removed is None && *final(list) == *old(list),
{
    if index < list.len() {
        let t = list.remove(index);
        assert(list.deep_view() =~= old(list).deep_view().remove(index as int));
        Some(t)
    } else {
        None
    }
}

/// Marks the record at `index` completed and returns a copy of its
/// description; all other records, and the description itself, are unchanged.
/// An out-of-range index leaves the list unchanged and returns nothing.
pub fn complete(list: &mut Vec<Todo>, index: usize) -> (desc: Option<String>)
    ensures
        index < old(list)@.len() ==> {
            &&& desc matches Some(d) && d@ == old(list).deep_view()[index as int].description
            &&& final(list).deep_view() == old(list).deep_view().update(
                index as int,
                (TodoView {
                    description: old(list).deep_view()[index as int].description,
                    completed: true,
                }),
            )
        },
        index >= old(list)@.len() ==> desc is None && *final(list) == *old(list),
{
    if index < list.len() {
        let d = list[index].description.clone();
        let t = Todo { description: list[index].description.clone(), completed: true };
        list.set(index, t);
        assert(list.deep_view() =~= old(list).deep_view().update(
            index as int,
            (TodoView {
                description: old(list).deep_view()[index as int].description,
                completed: true,
            }),
        ));
        Some(d)
    } else {
        None
    }
}

} // verus!
