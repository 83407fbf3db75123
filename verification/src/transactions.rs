use vstd::prelude::*;
use crate::ids::{fresh_id, now_micros};

verus! {

/// The kind of entity a transaction is about.
#[derive(Clone, Copy, Debug, PartialEq, Eq, Structural, Hash)]
pub enum DataType {
    Bytes,
    Form,
    Schedule,
    Template,
}

/// What a transaction does to its entity.
#[derive(Clone, Copy, Debug, PartialEq, Eq, Structural, Hash)]
pub enum Action {
    Add,
    Delete,
    Edit,
}

impl DataType {
    /// The kind's name, as the tables hold it.
    pub open spec fn name_of(self) -> Seq<char> {
        match self {
            DataType::Bytes => "Bytes"@,
            DataType::Form => "Form"@,
            DataType::Schedule => "Schedule"@,
            DataType::Template => "Template"@,
        }
    }

    /// The kind that a name stands for.
    pub open spec fn named(name: Seq<char>) -> Option<DataType> {
        if name == "Bytes"@ {
            Some(DataType::Bytes)
        } else if name == "Form"@ {
            Some(DataType::Form)
        } else if name == "Schedule"@ {
            Some(DataType::Schedule)
        } else if name == "Template"@ {
            Some(DataType::Template)
        } else {
            None
        }
    }

    /// The kind's name, as the tables hold it.
    pub fn name(self) -> (name: &'static str)
        ensures
            name@ == self.name_of(),
    {
        match self {
            DataType::Bytes => "Bytes",
            DataType::Form => "Form",
            DataType::Schedule => "Schedule",
            DataType::Template => "Template",
        }
    }

    /// The kind that a name stands for, if it stands for one.
    pub fn from_name(name: &str) -> (kind: Option<DataType>)
        ensures
            kind == Self::named(name@),
    {
        let text = name.to_owned();
        if text == "Bytes".to_owned() {
            Some(DataType::Bytes)
        } else if text == "Form".to_owned() {
            Some(DataType::Form)
        } else if text == "Schedule".to_owned() {
            Some(DataType::Schedule)
        } else if text == "Template".to_owned() {
            Some(DataType::Template)
        } else {
            None
        }
    }

    /// A kind's name stands for that kind.
    pub proof fn lemma_name_round_trip(self)
        ensures
            Self::named(self.name_of()) == Some(self),
    {
        reveal_strlit("Bytes");
        reveal_strlit("Form");
        reveal_strlit("Schedule");
        reveal_strlit("Template");
        assert("Bytes"@.len() == 5 && "Form"@.len() == 4 && "Schedule"@.len() == 8 && "Template"@.len() == 8);
        assert("Schedule"@[0] == 'S' && "Template"@[0] == 'T');
    }
}

impl Action {
    /// The action's name, as the tables hold it.
    pub open spec fn name_of(self) -> Seq<char> {
        match self {
            Action::Add => "Add"@,
            Action::Delete => "Delete"@,
            Action::Edit => "Edit"@,
        }
    }

    /// The action that a name stands for.
    pub open spec fn named(name: Seq<char>) -> Option<Action> {
        if name == "Add"@ {
            Some(Action::Add)
        } else if name == "Delete"@ {
            Some(Action::Delete)
        } else if name == "Edit"@ {
            Some(Action::Edit)
        } else {
            None
        }
    }

    /// The action's name, as the tables hold it.
    pub fn name(self) -> (name: &'static str)
        ensures
            name@ == self.name_of(),
    {
        match self {
            Action::Add => "Add",
            Action::Delete => "Delete",
            Action::Edit => "Edit",
        }
    }

    /// The action that a name stands for, if it stands for one.
    pub fn from_name(name: &str) -> (action: Option<Action>)
        ensures
            action == Self::named(name@),
    {
        let text = name.to_owned();
        if text == "Add".to_owned() {
            Some(Action::Add)
        } else if text == "Delete".to_owned() {
            Some(Action::Delete)
        } else if text == "Edit".to_owned() {
            Some(Action::Edit)
        } else {
            None
        }
    }

    /// An action's name stands for that action.
    pub proof fn lemma_name_round_trip(self)
        ensures
            Self::named(self.name_of()) == Some(self),
    {
        reveal_strlit("Add");
        reveal_strlit("Delete");
        reveal_strlit("Edit");
        assert("Add"@.len() == 3 && "Delete"@.len() == 6 && "Edit"@.len() == 4);
    }

    /// Whether an entity whose latest transaction has this action is live.
    pub open spec fn spec_is_live(self) -> bool {
        self != Action::Delete
    }

    #[verifier::when_used_as_spec(spec_is_live)]
    pub fn is_live(self) -> (live: bool)
        ensures
            live == self.spec_is_live(),
    {
        match self {
            Action::Delete => false,
            _ => true,
        }
    }
}

/// One entry of the log: a mutation of the entity that `data_type` and
/// `alt_key` name, whose payload is the blob `blob_id`.
#[derive(Clone, Debug, PartialEq, Eq)]
pub struct Transaction {
    pub id: u128,
    pub data_type: DataType,
    pub action: Action,
    pub blob_id: u128,
    pub alt_key: String,
    pub timestamp: i64,
}

/// A transaction as a mathematical value.
pub struct TransactionView {
    pub id: u128,
    pub data_type: DataType,
    pub action: Action,
    pub blob_id: u128,
    pub alt_key: Seq<char>,
    pub timestamp: i64,
}

impl View for Transaction {
    type V = TransactionView;

    open spec fn view(&self) -> TransactionView {
        TransactionView {
            id: self.id,
            data_type: self.data_type,
            action: self.action,
            blob_id: self.blob_id,
            alt_key: self.alt_key@,
            timestamp: self.timestamp,
        }
    }
}

impl TransactionView {
    /// Whether the transaction is about the entity `(data_type, alt_key)`.
    pub open spec fn concerns(self, data_type: DataType, alt_key: Seq<char>) -> bool {
        self.data_type == data_type && self.alt_key == alt_key
    }

    /// The same transaction at another time.
    pub open spec fn at(self, timestamp: i64) -> TransactionView {
        TransactionView { timestamp, ..self }
    }
}

impl Transaction {
    /// A transaction with a fresh random identifier, stamped with the clock's
    /// reading.
    pub fn new(data_type: DataType, action: Action, blob_id: u128, alt_key: String) -> (txn:
        Transaction)
        ensures
            txn@.data_type == data_type,
            txn@.action == action,
            txn@.blob_id == blob_id,
            txn@.alt_key == alt_key@,
    {
        Transaction {
            id: fresh_id(),
            data_type,
            action,
            blob_id,
            timestamp: now_micros(),
            alt_key,
        }
    }

    /// A copy of the transaction.
    pub fn duplicate(&self) -> (copy: Transaction)
        ensures
            copy@ == self@,
    {
        Transaction {
            id: self.id,
            data_type: self.data_type,
            action: self.action,
            blob_id: self.blob_id,
            alt_key: self.alt_key.clone(),
            timestamp: self.timestamp,
        }
    }
}

} // verus!
