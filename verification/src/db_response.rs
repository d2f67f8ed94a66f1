//! The values a query returns.  A response is a sequence of rows; a row is a
//! sequence of typed values decoded from record fields.

use vstd::prelude::*;

verus! {

/// A decoded field value.
#[derive(Debug, PartialEq)]
pub enum RType {
    Num(i64),
    Blob(Vec<u8>),
    Str(String),
    Null,
}

/// The mathematical model of a field value.
pub enum RVal {
    Num(i64),
    Blob(Seq<u8>),
    Str(Seq<char>),
    Null,
}

impl View for RType {
    type V = RVal;

    open spec fn view(&self) -> RVal {
        match self {
            RType::Num(n) => RVal::Num(*n),
            RType::Blob(b) => RVal::Blob(b@),
            RType::Str(s) => RVal::Str(s@),
            RType::Null => RVal::Null,
        }
    }
}

/// The model of a row of values.
pub open spec fn row_model(row: Seq<RType>) -> Seq<RVal> {
    row.map_values(|v: RType| v@)
}

/// The model of a whole response.
pub open spec fn response_model(rows: Seq<Vec<RType>>) -> Seq<Seq<RVal>> {
    rows.map_values(|row: Vec<RType>| row_model(row@))
}

impl RType {
    /// An explicit copy that keeps the model value.
    pub fn duplicate(&self) -> (r: RType)
        ensures
            r@ == self@,
    {
        match self {
            RType::Num(n) => RType::Num(*n),
            RType::Blob(b) => {
                let c = b.clone();
                proof {
                    assert(c@ =~= b@);
                }
                RType::Blob(c)
            },
            RType::Str(s) => RType::Str(s.clone()),
            RType::Null => RType::Null,
        }
    }
}

/// Rows of values, as a query returns them.
pub type Response = Vec<Vec<RType>>;

} // verus!
