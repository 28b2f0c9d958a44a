//! What holds of the board across operations.
//!
//! The operations are proved, each by itself, to change the store as
//! [`Table`] says. The statements here follow from that: they relate one
//! operation to another, or to everything that went before.

use crate::message::Row;
use crate::store::{
    lemma_delete_absent, lemma_delete_keeps_wf, lemma_insert_keeps_wf, other_than, Table,
};
use vstd::prelude::*;

verus! {

/// The test that keeps the rows numbered `id`.
pub open spec fn numbered(id: int) -> spec_fn(Row) -> bool {
    |row: Row| row.id == id
}

/// One thing that happens to a store in its lifetime.
pub enum Step {
    /// A listing.
    List,
    /// A create with this content.
    Create { content: Seq<char> },
    /// A delete of this identifier.
    Delete { id: int },
    /// The connection is cut.
    Disconnect,
    /// The connection is restored.
    Reconnect,
}

/// The table that `step` leaves. A step that fails leaves the table as it was.
pub open spec fn after(table: Table, step: Step) -> Table {
    match step {
        Step::List => table,
        Step::Create { content } => if table.insert_failure() is None {
            table.inserted(content)
        } else {
            table
        },
        Step::Delete { id } => if table.access_failure() is None {
            table.deleted(id)
        } else {
            table
        },
        Step::Disconnect => Table { connected: false, ..table },
        Step::Reconnect => Table { connected: true, ..table },
    }
}

/// The table that `steps` leave, taken in order from `start`.
pub open spec fn after_all(start: Table, steps: Seq<Step>) -> Table
    decreases steps.len(),
{
    if steps.len() == 0 {
        start
    } else {
        after(after_all(start, steps.drop_last()), steps.last())
    }
}

/// The identifiers that the creates among `steps` returned.
pub open spec fn issued(start: Table, steps: Seq<Step>) -> Set<int>
    decreases steps.len(),
{
    if steps.len() == 0 {
        Set::empty()
    } else {
        let earlier = issued(start, steps.drop_last());
        let table = after_all(start, steps.drop_last());
        if steps.last() is Create && table.insert_failure() is None {
            earlier.insert(table.next_id())
        } else {
            earlier
        }
    }
}

/// Every step keeps a table well formed and never lowers the counter.
pub proof fn lemma_step_keeps_wf(table: Table, step: Step)
    requires
        table.wf(),
    ensures
        after(table, step).wf(),
        table.last_id <= after(table, step).last_id,
{
    match step {
        Step::Create { content } => {
            if table.insert_failure() is None {
                lemma_insert_keeps_wf(table, content);
            }
        },
        Step::Delete { id } => {
            lemma_delete_keeps_wf(table, id);
        },
        _ => {},
    }
}

/// Over the lifetime of a store the counter never falls, and it bounds every
/// identifier that a create has returned.
pub proof fn lemma_counter_bounds_issued(start: Table, steps: Seq<Step>)
    requires
        start.wf(),
    ensures
        after_all(start, steps).wf(),
        start.last_id <= after_all(start, steps).last_id,
        forall|id: int|
            #![trigger issued(start, steps).contains(id)]
            issued(start, steps).contains(id) ==> start.last_id < id <= after_all(
                start,
                steps,
            ).last_id,
    decreases steps.len(),
{
    if steps.len() > 0 {
        let earlier = steps.drop_last();
        let table = after_all(start, earlier);
        lemma_counter_bounds_issued(start, earlier);
        lemma_step_keeps_wf(table, steps.last());
        let now = after_all(start, steps);
        assert forall|id: int|
            #![trigger issued(start, steps).contains(id)]
            issued(start, steps).contains(id) implies start.last_id < id <= now.last_id by {
            if !issued(start, earlier).contains(id) {
                assert(id == table.next_id());
            }
        }
    }
}

/// No identifier is handed out twice. Whatever has happened to a store
/// since it was the table `start`, the identifier that its next create
/// returns is none that an earlier create returned, and none that a row has
/// now or had at the start.
pub proof fn lemma_created_id_is_fresh(start: Table, steps: Seq<Step>)
    requires
        start.wf(),
    ensures
        !issued(start, steps).contains(after_all(start, steps).next_id()),
        !start.holds(after_all(start, steps).next_id()),
        !after_all(start, steps).holds(after_all(start, steps).next_id()),
{
    lemma_counter_bounds_issued(start, steps);
}

/// Of two creates, whichever the store serves first, the second returns
/// another identifier than the first.
pub proof fn lemma_two_creates_get_distinct_ids(table: Table, first: Seq<char>, second: Seq<char>)
    requires
        table.wf(),
        table.insert_failure() is None,
        table.inserted(first).insert_failure() is None,
    ensures
        table.new_row(first).id != table.inserted(first).new_row(second).id,
{
}

/// After a create, the listing holds the new message exactly once: the rows
/// with its identifier are that one row, with the content that was given.
pub proof fn lemma_created_message_is_listed_once(table: Table, content: Seq<char>)
    requires
        table.wf(),
        table.insert_failure() is None,
    ensures
        table.inserted(content).rows.filter(numbered(table.next_id())) == seq![
            table.new_row(content),
        ],
{
    reveal(Seq::filter);
    let id = table.next_id();
    let after = table.inserted(content).rows;
    assert(after.drop_last() =~= table.rows);
    lemma_none_numbered(table.rows, id);
    assert(numbered(id)(after.last()));
    assert(after.filter(numbered(id)) =~= seq![table.new_row(content)]);
}

/// Where no row is numbered `id`, the rows numbered `id` are none.
proof fn lemma_none_numbered(rows: Seq<Row>, id: int)
    requires
        forall|i: int| 0 <= i < rows.len() ==> (#[trigger] rows[i]).id != id,
    ensures
        rows.filter(numbered(id)) == Seq::<Row>::empty(),
    decreases rows.len(),
{
    reveal(Seq::filter);
    if rows.len() > 0 {
        let front = rows.drop_last();
        assert forall|i: int| 0 <= i < front.len() implies (#[trigger] front[i]).id != id by {
            assert(front[i] == rows[i]);
        }
        lemma_none_numbered(front, id);
        assert(!numbered(id)(rows.last()));
    }
}

/// After a delete, the listing holds no message with the deleted
/// identifier, whether or not one was stored before.
pub proof fn lemma_deleted_message_is_not_listed(table: Table, id: int)
    ensures
        !table.deleted(id).holds(id),
        table.deleted(id).rows.filter(numbered(id)) == Seq::<Row>::empty(),
{
    let after = table.deleted(id).rows;
    assert forall|i: int| 0 <= i < after.len() implies (#[trigger] after[i]).id != id by {
        table.rows.lemma_filter_pred(other_than(id), i);
    }
    lemma_none_numbered(after, id);
}

/// A delete of an identifier that no row has leaves the table as it was and
/// removes nothing.
pub proof fn lemma_delete_of_absent_changes_nothing(table: Table, id: int)
    requires
        !table.holds(id),
    ensures
        table.deleted(id) == table,
        table.affected(id) == 0,
{
    lemma_delete_absent(table.rows, id);
}

} // verus!
