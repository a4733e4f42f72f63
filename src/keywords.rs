use vstd::prelude::*;

verus! {

/// A column of the key:value tag table.
#[derive(Clone, Copy, Debug, PartialEq, Eq, Structural)]
pub enum Column {
    Name,
    Value,
}

impl Column {
    /// The position of the column in the table.
    pub fn index(&self) -> (r: u32)
        ensures
            r == (match self {
                Column::Name => 0u32,
                Column::Value => 1u32,
            }),
    {
        match self {
            Column::Name => 0,
            Column::Value => 1,
        }
    }

    /// The position of the column, as a signed number.
    pub fn signed_index(&self) -> (r: i32)
        ensures
            r == (match self {
                Column::Name => 0i32,
                Column::Value => 1i32,
            }),
    {
        match self {
            Column::Name => 0,
            Column::Value => 1,
        }
    }
}

} // verus!
