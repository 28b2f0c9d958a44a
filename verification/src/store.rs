//! The store: one table of messages, the counter that numbers them, and the
//! connection through which both are reached.
//!
//! [`Table`] is the mathematical value of a store and says what each
//! operation does. [`MessageStore`] is the store itself; its three
//! operations, `insert`, `list_all` and `delete_by_id`, are proved to do
//! what `Table` says.

use crate::error::StorageError;
use crate::message::{rows_of, Message, Row};
use vstd::prelude::*;
use vstd::string::StringExecFns;

verus! {

/// What a store that is not connected answers.
pub open spec fn disconnected_detail() -> Seq<char> {
    "storage is not connected"@
}

/// What a store answers that has handed out its last identifier.
pub open spec fn exhausted_detail() -> Seq<char> {
    "message identifiers are exhausted"@
}

/// The test that keeps every row but those numbered `id`.
pub open spec fn other_than(id: int) -> spec_fn(Row) -> bool {
    |row: Row| row.id != id
}

/// The mathematical value of a store.
pub struct Table {
    /// The rows, in the order in which a listing gives them.
    pub rows: Seq<Row>,
    /// The largest identifier handed out so far; 0 before the first.
    pub last_id: int,
    /// Whether the store can be reached.
    pub connected: bool,
}

impl Table {
    /// Identifiers are positive, none exceeds the counter, and the rows stand
    /// in ascending order of identifier, so that no two share one.
    pub open spec fn wf(self) -> bool {
        &&& 0 <= self.last_id <= i64::MAX
        &&& forall|i: int|
            0 <= i < self.rows.len() ==> 1 <= (#[trigger] self.rows[i]).id <= self.last_id
        &&& forall|i: int, j: int|
            #![trigger self.rows[i], self.rows[j]]
            0 <= i < j < self.rows.len() ==> self.rows[i].id < self.rows[j].id
    }

    /// Whether a row numbered `id` is stored.
    pub open spec fn holds(self, id: int) -> bool {
        exists|i: int| 0 <= i < self.rows.len() && (#[trigger] self.rows[i]).id == id
    }

    /// The identifier that the next insert hands out.
    pub open spec fn next_id(self) -> int {
        self.last_id + 1
    }

    /// Why a read or a delete fails, if it does.
    pub open spec fn access_failure(self) -> Option<Seq<char>> {
        if !self.connected {
            Some(disconnected_detail())
        } else {
            None
        }
    }

    /// Why an insert fails, if it does.
    pub open spec fn insert_failure(self) -> Option<Seq<char>> {
        if !self.connected {
            Some(disconnected_detail())
        } else if self.last_id >= i64::MAX {
            Some(exhausted_detail())
        } else {
            None
        }
    }

    /// The row that an insert of `content` creates.
    pub open spec fn new_row(self, content: Seq<char>) -> Row {
        Row { id: self.next_id(), content }
    }

    /// The table after an insert of `content`.
    pub open spec fn inserted(self, content: Seq<char>) -> Table {
        Table {
            rows: self.rows.push(self.new_row(content)),
            last_id: self.next_id(),
            connected: self.connected,
        }
    }

    /// The table after the delete of `id`: every row but those numbered `id`.
    pub open spec fn deleted(self, id: int) -> Table {
        Table {
            rows: self.rows.filter(other_than(id)),
            last_id: self.last_id,
            connected: self.connected,
        }
    }

    /// How many rows the delete of `id` removes.
    pub open spec fn affected(self, id: int) -> int {
        self.rows.len() - self.deleted(id).rows.len()
    }
}

/// The table of a store that is taken up again with these messages and this
/// counter.
pub open spec fn restored_table(messages: Seq<Message>, last_id: int) -> Table {
    Table { rows: rows_of(messages), last_id, connected: true }
}

/// Where no row is numbered `id`, the delete of `id` keeps every row.
pub proof fn lemma_delete_absent(rows: Seq<Row>, id: int)
    requires
        forall|j: int| 0 <= j < rows.len() ==> (#[trigger] rows[j]).id != id,
    ensures
        rows.filter(other_than(id)) == rows,
    decreases rows.len(),
{
    reveal(Seq::filter);
    if rows.len() > 0 {
        let front = rows.drop_last();
        assert forall|j: int| 0 <= j < front.len() implies (#[trigger] front[j]).id != id by {
            assert(front[j] == rows[j]);
        }
        lemma_delete_absent(front, id);
        assert(other_than(id)(rows.last()));
        assert(front.push(rows.last()) =~= rows);
    }
}

/// Where the row at `at` is the only one numbered `id`, the delete of `id`
/// removes that row and keeps the others in their order.
pub proof fn lemma_delete_present(rows: Seq<Row>, at: int, id: int)
    requires
        0 <= at < rows.len(),
        rows[at].id == id,
        forall|j: int| 0 <= j < rows.len() && j != at ==> (#[trigger] rows[j]).id != id,
    ensures
        rows.filter(other_than(id)) == rows.remove(at),
    decreases rows.len(),
{
    reveal(Seq::filter);
    let front = rows.drop_last();
    if at == rows.len() - 1 {
        assert forall|j: int| 0 <= j < front.len() implies (#[trigger] front[j]).id != id by {
            assert(front[j] == rows[j]);
        }
        lemma_delete_absent(front, id);
        assert(!other_than(id)(rows.last()));
        assert(rows.remove(at) =~= front);
    } else {
        assert forall|j: int| 0 <= j < front.len() && j != at implies (#[trigger] front[j]).id
            != id by {
            assert(front[j] == rows[j]);
        }
        assert(front[at] == rows[at]);
        lemma_delete_present(front, at, id);
        assert(other_than(id)(rows.last()));
        assert(front.remove(at).push(rows.last()) =~= rows.remove(at));
    }
}

/// An insert keeps a table well formed.
pub proof fn lemma_insert_keeps_wf(table: Table, content: Seq<char>)
    requires
        table.wf(),
        table.insert_failure() is None,
    ensures
        table.inserted(content).wf(),
{
    let before = table.rows;
    let after = table.inserted(content).rows;
    assert forall|i: int| 0 <= i < after.len() implies 1 <= (#[trigger] after[i]).id
        <= table.next_id() by {
        if i < before.len() {
            assert(after[i] == before[i]);
        }
    }
    assert forall|i: int, j: int|
        #![trigger after[i], after[j]]
        0 <= i < j < after.len() implies after[i].id < after[j].id by {
        assert(after[i] == before[i]);
        if j < before.len() {
            assert(after[j] == before[j]);
        }
    }
}

/// A delete keeps a table well formed, and removes one row or none: one
/// exactly when a row has the identifier.
pub proof fn lemma_delete_keeps_wf(table: Table, id: int)
    requires
        table.wf(),
    ensures
        table.deleted(id).wf(),
        table.affected(id) == (if table.holds(id) { 1int } else { 0int }),
{
    let before = table.rows;
    if table.holds(id) {
        let at = choose|i: int| 0 <= i < before.len() && (#[trigger] before[i]).id == id;
        lemma_delete_present(before, at, id);
        let after = before.remove(at);
        assert forall|i: int| 0 <= i < after.len() implies 1 <= (#[trigger] after[i]).id
            <= table.last_id by {
            if i < at {
                assert(after[i] == before[i]);
            } else {
                assert(after[i] == before[i + 1]);
            }
        }
        assert forall|i: int, j: int|
            #![trigger after[i], after[j]]
            0 <= i < j < after.len() implies after[i].id < after[j].id by {
            let from_i = if i < at { i } else { i + 1 };
            let from_j = if j < at { j } else { j + 1 };
            assert(after[i] == before[from_i]);
            assert(after[j] == before[from_j]);
        }
    } else {
        lemma_delete_absent(before, id);
    }
}

/// The store of the board.
pub struct MessageStore {
    rows: Vec<Message>,
    last_id: i64,
    connected: bool,
}

impl View for MessageStore {
    type V = Table;

    closed spec fn view(&self) -> Table {
        Table {
            rows: rows_of(self.rows@),
            last_id: self.last_id as int,
            connected: self.connected,
        }
    }
}

impl MessageStore {
    /// The invariant of a store: its value is a well-formed table.
    pub open spec fn wf(&self) -> bool {
        self@.wf()
    }

    /// A connected store with no rows, which has handed out no identifier.
    pub fn new() -> (store: MessageStore)
        ensures
            store.wf(),
            store@ == (Table { rows: Seq::empty(), last_id: 0, connected: true }),
    {
        let store = MessageStore { rows: Vec::new(), last_id: 0, connected: true };
        assert(rows_of(store.rows@) =~= Seq::empty());
        store
    }

    /// A connected store that holds `rows` and has handed out the identifiers
    /// up to `last_id`: a store taken up again where an earlier one was left.
    ///
    /// Returns `None` exactly when `rows` and `last_id` make no well-formed
    /// table.
    pub fn restore(rows: Vec<Message>, last_id: i64) -> (restored: Option<MessageStore>)
        ensures
            match restored {
                Some(store) => {
                    &&& store.wf()
                    &&& store@ == restored_table(rows@, last_id as int)
                },
                None => !restored_table(rows@, last_id as int).wf(),
            },
    {
        let ghost table = restored_table(rows@, last_id as int);
        if last_id < 0 {
            return None;
        }
        let mut previous: i64 = 0;
        let mut at: usize = 0;
        while at < rows.len()
            invariant
                at <= rows.len(),
                table == restored_table(rows@, last_id as int),
                0 <= previous <= last_id,
                at > 0 ==> previous == rows@[at - 1].id,
                at == 0 ==> previous == 0,
                forall|i: int| 0 <= i < at ==> 1 <= (#[trigger] table.rows[i]).id <= previous,
                forall|i: int, j: int|
                    #![trigger table.rows[i], table.rows[j]]
                    0 <= i < j < at ==> table.rows[i].id < table.rows[j].id,
            decreases rows.len() - at,
        {
            let id: i64 = rows[at].id;
            assert(table.rows[at as int].id == id);
            if id <= previous || id > last_id {
                proof {
                    if at > 0 {
                        assert(table.rows[at - 1].id == previous);
                    }
                }
                return None;
            }
            previous = id;
            at = at + 1;
        }
        Some(MessageStore { rows, last_id, connected: true })
    }

    /// Whether the store can be reached.
    pub fn is_connected(&self) -> (connected: bool)
        ensures
            connected == self@.connected,
    {
        self.connected
    }

    /// Cuts the connection. The rows and the counter stay as they are, and
    /// every operation fails until the store is connected again.
    pub fn disconnect(&mut self)
        requires
            old(self).wf(),
        ensures
            final(self).wf(),
            final(self)@ == (Table { connected: false, ..old(self)@ }),
    {
        self.connected = false;
    }

    /// Restores the connection to the rows and the counter as they were left.
    pub fn reconnect(&mut self)
        requires
            old(self).wf(),
        ensures
            final(self).wf(),
            final(self)@ == (Table { connected: true, ..old(self)@ }),
    {
        self.connected = true;
    }

    /// Appends one row that holds `content` unchanged and returns it with the
    /// identifier it was given: one more than the largest handed out before.
    ///
    /// Fails, and leaves the store as it was, exactly when the store is not
    /// connected or no identifier is left.
    pub fn insert(&mut self, content: String) -> (outcome: Result<Message, StorageError>)
        requires
            old(self).wf(),
        ensures
            final(self).wf(),
            match outcome {
                Ok(message) => {
                    &&& old(self)@.insert_failure() is None
                    &&& message@ == old(self)@.new_row(content@)
                    &&& final(self)@ == old(self)@.inserted(content@)
                },
                Err(err) => {
                    &&& old(self)@.insert_failure() == Some(err.detail@)
                    &&& final(self)@ == old(self)@
                },
            },
    {
        if !self.connected {
            return Err(StorageError { detail: String::from_str("storage is not connected") });
        }
        if self.last_id == i64::MAX {
            return Err(
                StorageError { detail: String::from_str("message identifiers are exhausted") },
            );
        }
        let id: i64 = self.last_id + 1;
        let message = Message { id, content: content.clone() };
        self.rows.push(Message { id, content });
        self.last_id = id;
        proof {
            assert(self@.rows =~= old(self)@.inserted(content@).rows);
            lemma_insert_keeps_wf(old(self)@, content@);
        }
        Ok(message)
    }

    /// Returns every row, in the order of the table.
    ///
    /// Fails exactly when the store is not connected.
    pub fn list_all(&self) -> (outcome: Result<Vec<Message>, StorageError>)
        requires
            self.wf(),
        ensures
            match outcome {
                Ok(messages) => {
                    &&& self@.access_failure() is None
                    &&& rows_of(messages@) == self@.rows
                },
                Err(err) => self@.access_failure() == Some(err.detail@),
            },
    {
        if !self.connected {
            return Err(StorageError { detail: String::from_str("storage is not connected") });
        }
        let messages = self.rows.clone();
        proof {
            assert(rows_of(messages@) =~= rows_of(self.rows@));
        }
        Ok(messages)
    }

    /// Removes the row numbered `id`, if there is one, and returns how many
    /// rows it removed: 1 or 0. That no row is numbered `id` is no failure.
    ///
    /// Fails, and leaves the store as it was, exactly when the store is not
    /// connected.
    pub fn delete_by_id(&mut self, id: i64) -> (outcome: Result<u64, StorageError>)
        requires
            old(self).wf(),
        ensures
            final(self).wf(),
            match outcome {
                Ok(count) => {
                    &&& old(self)@.access_failure() is None
                    &&& count == old(self)@.affected(id as int)
                    &&& count == (if old(self)@.holds(id as int) { 1int } else { 0int })
                    &&& final(self)@ == old(self)@.deleted(id as int)
                },
                Err(err) => {
                    &&& old(self)@.access_failure() == Some(err.detail@)
                    &&& final(self)@ == old(self)@
                },
            },
    {
        if !self.connected {
            return Err(StorageError { detail: String::from_str("storage is not connected") });
        }
        let ghost before = self@.rows;
        let mut at: usize = 0;
        while at < self.rows.len() && self.rows[at].id != id
            invariant
                at <= self.rows.len(),
                *self == *old(self),
                before == rows_of(self.rows@),
                forall|j: int| 0 <= j < at ==> (#[trigger] before[j]).id != id,
            decreases self.rows.len() - at,
        {
            at = at + 1;
        }
        if at < self.rows.len() {
            self.rows.remove(at);
            proof {
                assert(rows_of(self.rows@) =~= before.remove(at as int));
                assert(before[at as int].id == id);
                lemma_delete_present(before, at as int, id as int);
            }
            Ok(1)
        } else {
            proof {
                lemma_delete_absent(before, id as int);
            }
            Ok(0)
        }
    }
}

} // verus!
