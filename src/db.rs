//! The kinds of stored events and the shapes in which events go into and come
//! out of the event store.

use crate::models::{self, get_evt_type_named, id_named};
use crate::time::{LocalTime, Timestamp};
use vstd::prelude::*;

verus! {

/// The identifier of a stored event, or of a stored event kind.
pub type Id = i64;

pub type Count = i32;

/// Whether an event starts or stops work.
#[derive(Clone, Copy, Debug, PartialEq, Eq, Structural)]
pub enum EvtType {
    Start,
    Stop,
}

impl EvtType {
    /// The name under which the store keeps this kind.
    pub open spec fn spec_name(self) -> Seq<char> {
        match self {
            EvtType::Start => "START"@,
            EvtType::Stop => "STOP"@,
        }
    }

    pub fn name(self) -> (r: &'static str)
        ensures
            r@ == self.spec_name(),
    {
        match self {
            EvtType::Start => "START",
            EvtType::Stop => "STOP",
        }
    }
}

/// The ids under which the store keeps the two event kinds.
#[derive(Clone, Copy, Debug, PartialEq, Eq)]
pub struct EvtTypeIds {
    pub start: Id,
    pub stop: Id,
}

impl EvtTypeIds {
    pub open spec fn spec_id(self, kind: EvtType) -> Id {
        match kind {
            EvtType::Start => self.start,
            EvtType::Stop => self.stop,
        }
    }

    pub open spec fn spec_unmap(self, id: Id) -> Option<EvtType> {
        if id == self.start {
            Some(EvtType::Start)
        } else if id == self.stop {
            Some(EvtType::Stop)
        } else {
            None
        }
    }

    /// The ids of the two kinds, as the table of kinds gives them.
    pub fn from_table(table: &Vec<models::EvtType>) -> (r: Option<EvtTypeIds>)
        ensures
            r matches Some(ids) ==> id_named(table@, EvtType::Start.spec_name()) == Some(ids.start)
                && id_named(table@, EvtType::Stop.spec_name()) == Some(ids.stop),
            r is None ==> id_named(table@, EvtType::Start.spec_name()) is None || id_named(
                table@,
                EvtType::Stop.spec_name(),
            ) is None,
    {
        let start = get_evt_type_named(table, EvtType::Start.name());
        let stop = get_evt_type_named(table, EvtType::Stop.name());
        match (start, stop) {
            (Some(a), Some(b)) => Some(EvtTypeIds { start: a.id, stop: b.id }),
            _ => None,
        }
    }

    /// The stored id of a kind.
    pub fn id(&self, kind: EvtType) -> (r: Id)
        ensures
            r == self.spec_id(kind),
    {
        match kind {
            EvtType::Start => self.start,
            EvtType::Stop => self.stop,
        }
    }

    /// The kind that a stored id stands for, if any.
    pub fn unmap(&self, id: Id) -> (r: Option<EvtType>)
        ensures
            r == self.spec_unmap(id),
    {
        if id == self.start {
            Some(EvtType::Start)
        } else if id == self.stop {
            Some(EvtType::Stop)
        } else {
            None
        }
    }
}

/// A kind stored under its id reads back as the same kind, as long as the
/// two kinds have distinct ids.
pub proof fn lemma_kind_round_trip(ids: EvtTypeIds, kind: EvtType)
    requires
        ids.start != ids.stop,
    ensures
        ids.spec_unmap(ids.spec_id(kind)) == Some(kind),
{
}

/// An event on its way into the store.
#[derive(Debug)]
pub struct InsertEvent {
    pub evt_type: EvtType,
    pub timestamp: Timestamp,
    pub message: String,
}

/// An event as the store hands it back, its instant read on the local clock.
#[derive(Debug)]
pub struct RetrieveEvent {
    pub id: Id,
    pub evt_type: EvtType,
    pub timestamp: LocalTime,
    pub message: String,
}

} // verus!
