//! What a sub-state keeps between two frames: the status it wants to hand to
//! the game, values stored by name, and whether its interface has to be laid
//! out again.

use crate::substate::Status;
use vstd::prelude::*;
use vstd::string::*;

verus! {

/// A value that a sub-state stores by name.
#[derive(Clone, PartialEq, Debug)]
#[allow(inconsistent_fields)]
pub enum StoredValue {
    /// A floating-point number, held by its 32 bits.
    FloatingPoint { bits: u32 },
    Integral { value: i32 },
    Boolean { value: bool },
    Textual { value: String },
}

struct Slot {
    key: String,
    value: StoredValue,
}

/// What a `StateInfo` holds.
pub ghost struct StateInfoModel {
    pub status: Option<Status>,
    pub values: Map<Seq<char>, StoredValue>,
    pub ui_dirty: bool,
}

/// The pending status, the stored values and the layout flag of a sub-state.
pub struct StateInfo {
    status: Option<Status>,
    data_store: Vec<Slot>,
    should_refresh_ui: bool,
}

/// What a list of slots holds: a later slot replaces an earlier one of the
/// same name.
spec fn slot_values(slots: Seq<Slot>) -> Map<Seq<char>, StoredValue>
    decreases slots.len(),
{
    if slots.len() == 0 {
        Map::empty()
    } else {
        slot_values(slots.drop_last()).insert(slots.last().key@, slots.last().value)
    }
}

proof fn lemma_slot_absent(slots: Seq<Slot>, key: Seq<char>)
    requires
        forall|j: int| 0 <= j < slots.len() ==> slots[j].key@ != key,
    ensures
        !slot_values(slots).contains_key(key),
    decreases slots.len(),
{
    if slots.len() > 0 {
        lemma_slot_absent(slots.drop_last(), key);
    }
}

proof fn lemma_slot_found(slots: Seq<Slot>, i: int, key: Seq<char>)
    requires
        0 <= i < slots.len(),
        slots[i].key@ == key,
        forall|j: int| i < j < slots.len() ==> slots[j].key@ != key,
    ensures
        slot_values(slots).contains_key(key),
        slot_values(slots)[key] == slots[i].value,
    decreases slots.len(),
{
    if i < slots.len() - 1 {
        lemma_slot_found(slots.drop_last(), i, key);
    }
}

proof fn lemma_slot_replaced(slots: Seq<Slot>, i: int, slot: Slot)
    requires
        0 <= i < slots.len(),
        slots[i].key@ == slot.key@,
        forall|j: int| i < j < slots.len() ==> slots[j].key@ != slot.key@,
    ensures
        slot_values(slots.update(i, slot)) == slot_values(slots).insert(slot.key@, slot.value),
    decreases slots.len(),
{
    let after = slots.update(i, slot);
    if i == slots.len() - 1 {
        assert(after.drop_last() == slots.drop_last());
        assert(slot_values(after) == slot_values(slots).insert(slot.key@, slot.value));
    } else {
        lemma_slot_replaced(slots.drop_last(), i, slot);
        assert(after.drop_last() == slots.drop_last().update(i, slot));
        assert(after.last() == slots.last());
        assert(slot_values(after) == slot_values(slots).insert(slot.key@, slot.value));
    }
}

/// What is said of a name under which no value is stored.
pub open spec fn missing_value_message(key: Seq<char>) -> Seq<char> {
    "No value is stored with key "@ + key + "!"@
}

impl View for StateInfo {
    type V = StateInfoModel;

    closed spec fn view(&self) -> StateInfoModel {
        StateInfoModel {
            status: self.status,
            values: slot_values(self.data_store@),
            ui_dirty: self.should_refresh_ui,
        }
    }
}

impl StateInfo {
    /// No status is pending, no value is stored, and the interface is laid
    /// out.
    pub fn new() -> (info: StateInfo)
        ensures
            info@ == (StateInfoModel {
                status: None,
                values: Map::empty(),
                ui_dirty: false,
            }),
    {
        StateInfo { status: None, data_store: Vec::new(), should_refresh_ui: false }
    }

    /// Hands out the pending status, once: no status is pending afterwards.
    pub fn get_status(&mut self) -> (status: Option<Status>)
        ensures
            status == old(self)@.status,
            final(self)@ == (StateInfoModel { status: None, ..old(self)@ }),
    {
        self.status.take()
    }

    /// Asks the game to hand over to the sub-state named `id`.
    pub fn transition(&mut self, id: &'static str)
        ensures
            final(self)@ == (StateInfoModel {
                status: Some(Status::Transition { id }),
                ..old(self)@
            }),
    {
        self.status = Some(Status::Transition { id });
    }

    /// Asks the game to end.
    pub fn quit(&mut self)
        ensures
            final(self)@ == (StateInfoModel { status: Some(Status::Quit), ..old(self)@ }),
    {
        self.status = Some(Status::Quit);
    }

    /// The place of the slot that answers for `key`, if there is one.
    fn position(&self, key: &String) -> (found: Option<usize>)
        ensures
            match found {
                Some(i) => i < self.data_store.len() && self.data_store[i as int].key@ == key@
                    && forall|j: int|
                    i < j < self.data_store.len() ==> self.data_store[j].key@ != key@,
                None => forall|j: int|
                    0 <= j < self.data_store.len() ==> self.data_store[j].key@ != key@,
            },
    {
        let mut i: usize = self.data_store.len();
        while i > 0
            invariant
                i <= self.data_store.len(),
                forall|j: int| i <= j < self.data_store.len() ==> self.data_store[j].key@ != key@,
            decreases i,
        {
            i -= 1;
            if self.data_store[i].key == *key {
                return Some(i);
            }
        }
        None
    }

    /// Stores `value` under `key`, in place of what was stored there.
    pub fn set_value(&mut self, key: &'static str, value: StoredValue)
        ensures
            final(self)@ == (StateInfoModel {
                values: old(self)@.values.insert(key@, value),
                ..old(self)@
            }),
    {
        let name = String::from_str(key);
        let found = self.position(&name);
        let slot = Slot { key: name, value };
        match found {
            Some(i) => {
                proof {
                    lemma_slot_replaced(self.data_store@, i as int, slot);
                }
                self.data_store[i] = slot;
            },
            None => {
                self.data_store.push(slot);
                assert(self.data_store@.drop_last() == old(self).data_store@);
            },
        }
    }

    /// The value stored under `key`, or, where there is none, a message that
    /// says so.
    pub fn get_value(&mut self, key: &'static str) -> (value: Result<&StoredValue, String>)
        ensures
            final(self)@ == old(self)@,
            match value {
                Ok(stored) => old(self)@.values.contains_key(key@) && *stored == old(
                    self,
                )@.values[key@],
                Err(message) => !old(self)@.values.contains_key(key@) && message@
                    == missing_value_message(key@),
            },
    {
        let name = String::from_str(key);
        match self.position(&name) {
            Some(i) => {
                proof {
                    lemma_slot_found(self.data_store@, i as int, key@);
                }
                Ok(&self.data_store[i].value)
            },
            None => {
                proof {
                    lemma_slot_absent(self.data_store@, key@);
                }
                Err(String::from_str("No value is stored with key ").concat(key).concat("!"))
            },
        }
    }

    /// Asks for the interface to be laid out again.
    pub fn refresh_ui(&mut self)
        ensures
            final(self)@ == (StateInfoModel { ui_dirty: true, ..old(self)@ }),
    {
        self.should_refresh_ui = true;
    }

    /// Whether the interface has to be laid out again. The question is
    /// answered with yes once: afterwards the interface counts as laid out.
    pub fn is_ui_dirty(&mut self) -> (dirty: bool)
        ensures
            dirty == old(self)@.ui_dirty,
            final(self)@ == (StateInfoModel { ui_dirty: false, ..old(self)@ }),
    {
        if self.should_refresh_ui {
            self.should_refresh_ui = false;
            return true;
        } else {
            return false;
        }
    }
}

} // verus!
