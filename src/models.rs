//! Rows of the event store's tables.

use crate::db::Id;
use crate::time::Timestamp;
use vstd::prelude::*;

verus! {

/// A row of the table of event kinds.
#[derive(Debug, PartialEq, Eq)]
pub struct EvtType {
    pub id: Id,
    pub name: String,
}

/// A row of the table of events, its kind given by id.
#[derive(Debug, PartialEq, Eq)]
pub struct Event {
    pub id: Id,
    pub evt_type: Id,
    pub timestamp: Timestamp,
    pub message: String,
}

/// The id of the first row of `table` that carries `name`.
pub open spec fn id_named(table: Seq<EvtType>, name: Seq<char>) -> Option<Id>
    decreases table.len(),
{
    if table.len() == 0 {
        None
    } else if table[0].name@ == name {
        Some(table[0].id)
    } else {
        id_named(table.drop_first(), name)
    }
}

/// The first row of the table of kinds that carries `name`.
pub fn get_evt_type_named(table: &Vec<EvtType>, name: &str) -> (r: Option<EvtType>)
    ensures
        r matches Some(row) ==> id_named(table@, name@) == Some(row.id) && row.name@ == name@,
        r is None ==> id_named(table@, name@) is None,
{
    let wanted = String::from_str(name);
    let mut i: usize = 0;
    assert(table@.subrange(0, table@.len() as int) =~= table@);
    while i < table.len()
        invariant
            i <= table.len(),
            wanted@ == name@,
            id_named(table@.subrange(i as int, table@.len() as int), name@) == id_named(
                table@,
                name@,
            ),
        decreases table.len() - i,
    {
        let ghost rest = table@.subrange(i as int, table@.len() as int);
        assert(rest.drop_first() =~= table@.subrange(i + 1, table@.len() as int));
        assert(rest[0] == table@[i as int]);
        if table[i].name == wanted {
            return Some(EvtType { id: table[i].id, name: table[i].name.clone() });
        }
        i = i + 1;
    }
    None
}

} // verus!
