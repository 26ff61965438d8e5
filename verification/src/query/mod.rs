//! Finding where to look things up.

use vstd::prelude::*;

use crate::strmap::StrMap;
use crate::text::begins_with;

verus! {

/// The handle for `file` among those of the repos in `order`: that of the first
/// repo whose path is a prefix of it, or the first one as fallback.
pub open spec fn handle_for<D>(
    handles: Map<Seq<char>, D>,
    order: Seq<Seq<char>>,
    file: Seq<char>,
) -> Option<D> {
    if exists|i: int| 0 <= i < order.len() && #[trigger] order[i].is_prefix_of(file) {
        Some(handles[first_prefix(order, file)])
    } else if order.len() > 0 {
        Some(handles[order[0]])
    } else {
        None
    }
}

/// The first of `order` that is a prefix of `file`.
pub open spec fn first_prefix(order: Seq<Seq<char>>, file: Seq<char>) -> Seq<char>
    decreases order.len(),
{
    if order.len() == 0 || order[0].is_prefix_of(file) {
        order[0]
    } else {
        first_prefix(order.drop_first(), file)
    }
}

/// Find the DB handle whose repo key is a prefix of `file`, or the first DB as fallback.
pub fn find_db_for_file<'a, D>(db_map: &'a StrMap<D>, file: &str) -> (res: Option<&'a D>)
    requires
        db_map.wf(),
    ensures
        match res {
            Some(db) => handle_for(db_map@, db_map.order(), file@) == Some(*db),
            None => handle_for(db_map@, db_map.order(), file@) is None,
        },
{
    let ghost order = db_map.order();
    let mut i: usize = 0;
    assert(order.skip(0) =~= order);
    while i < db_map.len()
        invariant
            db_map.wf(),
            order == db_map.order(),
            i <= order.len(),
            forall|k: int| 0 <= k < i ==> !(#[trigger] order[k].is_prefix_of(file@)),
            first_prefix(order, file@) == first_prefix(order.skip(i as int), file@),
        decreases order.len() - i,
    {
        assert(order.skip(i as int)[0] == order[i as int]);
        if begins_with(file, db_map.key_at(i).as_str()) {
            return Some(db_map.value_at(i));
        }
        assert(order.skip(i as int).drop_first() =~= order.skip(i + 1));
        i += 1;
    }
    if db_map.len() > 0 {
        Some(db_map.value_at(0))
    } else {
        None
    }
}

proof fn lemma_first_prefix(order: Seq<Seq<char>>, file: Seq<char>, i: int)
    requires
        0 <= i < order.len(),
        order[i].is_prefix_of(file),
    ensures
        order.contains(first_prefix(order, file)),
        first_prefix(order, file).is_prefix_of(file),
    decreases order.len(),
{
    if order[0].is_prefix_of(file) {
        assert(order.contains(order[0]));
    } else {
        let rest = order.drop_first();
        assert(rest[i - 1] == order[i]);
        lemma_first_prefix(rest, file, i - 1);
        let x = choose|x: int| 0 <= x < rest.len() && rest[x] == first_prefix(rest, file);
        assert(order[x + 1] == rest[x]);
    }
}

/// A handle is found whenever there is any; and where some repo path is a prefix
/// of the file, the handle found is that of such a repo.
pub proof fn law_handle_is_of_a_prefix<D>(
    handles: Map<Seq<char>, D>,
    order: Seq<Seq<char>>,
    file: Seq<char>,
)
    requires
        order.len() > 0,
    ensures
        handle_for(handles, order, file) is Some,
        (exists|i: int| 0 <= i < order.len() && #[trigger] order[i].is_prefix_of(file)) ==> exists|
            repo: Seq<char>,
        | #[trigger]
            repo.is_prefix_of(file) && order.contains(repo) && handle_for(handles, order, file)
                == Some(handles[repo]),
{
    if exists|i: int| 0 <= i < order.len() && #[trigger] order[i].is_prefix_of(file) {
        let i = choose|i: int| 0 <= i < order.len() && #[trigger] order[i].is_prefix_of(file);
        lemma_first_prefix(order, file, i);
        assert(first_prefix(order, file).is_prefix_of(file));
    }
}

/// The handle for a file is that of the first repo whose path is a prefix of it; where no
/// path is, it is the first handle, and where there are none, there is no handle.
pub proof fn law_first_prefix_is_taken<D>(
    handles: Map<Seq<char>, D>,
    order: Seq<Seq<char>>,
    file: Seq<char>,
    i: int,
)
    ensures
        0 <= i < order.len() && order[i].is_prefix_of(file) && (forall|j: int|
            0 <= j < i ==> !(#[trigger] order[j].is_prefix_of(file))) ==> handle_for(
            handles,
            order,
            file,
        ) == Some(handles[order[i]]),
        order.len() > 0 && (forall|j: int|
            0 <= j < order.len() ==> !(#[trigger] order[j].is_prefix_of(file))) ==> handle_for(
            handles,
            order,
            file,
        ) == Some(handles[order[0]]),
        order.len() == 0 ==> handle_for(handles, order, file) is None,
{
    if 0 <= i < order.len() && order[i].is_prefix_of(file) && (forall|j: int|
        0 <= j < i ==> !(#[trigger] order[j].is_prefix_of(file))) {
        lemma_first_prefix_at(order, file, i);
    }
}

proof fn lemma_first_prefix_at(order: Seq<Seq<char>>, file: Seq<char>, i: int)
    requires
        0 <= i < order.len(),
        order[i].is_prefix_of(file),
        forall|j: int| 0 <= j < i ==> !(#[trigger] order[j].is_prefix_of(file)),
    ensures
        first_prefix(order, file) == order[i],
    decreases order.len(),
{
    if i > 0 {
        let rest = order.drop_first();
        assert(!order[0].is_prefix_of(file));
        assert(rest[i - 1] == order[i]);
        assert forall|j: int| 0 <= j < i - 1 implies !(#[trigger] rest[j].is_prefix_of(file)) by {
            assert(rest[j] == order[j + 1]);
        }
        lemma_first_prefix_at(rest, file, i - 1);
    }
}

} // verus!
