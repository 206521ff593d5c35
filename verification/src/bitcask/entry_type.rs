//! The operations a record can stand for.

use vstd::prelude::*;

verus! {

/// What a record does to the index.
#[derive(Clone, Copy, PartialEq, Eq, Structural)]
pub enum EntryType {
    /// Gives a key a value.
    SetValue,
    /// Gives a key a value and a deadline.
    SetWithExpire,
    /// Removes a key.
    Delete,
    /// Removes every key.
    Clear,
}

impl EntryType {
    /// The mark that stands for this operation in a record's state field.
    pub open spec fn spec_mark(self) -> u16 {
        match self {
            EntryType::SetValue => 0,
            EntryType::SetWithExpire => 1,
            EntryType::Delete => 2,
            EntryType::Clear => 3,
        }
    }

    /// The operation that `mark` stands for, if it stands for one.
    pub open spec fn spec_from_mark(mark: u16) -> Option<EntryType> {
        if mark == 0 {
            Some(EntryType::SetValue)
        } else if mark == 1 {
            Some(EntryType::SetWithExpire)
        } else if mark == 2 {
            Some(EntryType::Delete)
        } else if mark == 3 {
            Some(EntryType::Clear)
        } else {
            None
        }
    }

    /// The mark that stands for this operation.
    pub fn mark(self) -> (mark: u16)
        ensures
            mark == self.spec_mark(),
    {
        match self {
            EntryType::SetValue => 0,
            EntryType::SetWithExpire => 1,
            EntryType::Delete => 2,
            EntryType::Clear => 3,
        }
    }

    /// The operation that `mark` stands for; none for a mark above 3.
    pub fn from_mark(mark: u16) -> (kind: Option<EntryType>)
        ensures
            kind == EntryType::spec_from_mark(mark),
    {
        match mark {
            0 => Some(EntryType::SetValue),
            1 => Some(EntryType::SetWithExpire),
            2 => Some(EntryType::Delete),
            3 => Some(EntryType::Clear),
            _ => None,
        }
    }
}

/// Every operation is found again from its mark.
pub proof fn mark_round_trip(kind: EntryType)
    ensures
        EntryType::spec_from_mark(kind.spec_mark()) == Some(kind),
        kind.spec_mark() <= 3,
{
}

} // verus!
