//! Identifiers and literal values as the projection list carries them.

use vstd::prelude::*;

verus! {

/// A literal or name value inside a projection item.
#[derive(Debug)]
pub enum VType {
    Num(i64),
    Str(String),
    Null,
}

/// The model of a [`VType`].
pub enum VTypeView {
    Num(i64),
    Str(Seq<char>),
    Null,
}

impl View for VType {
    type V = VTypeView;

    open spec fn view(&self) -> VTypeView {
        match self {
            VType::Num(n) => VTypeView::Num(*n),
            VType::Str(s) => VTypeView::Str(s@),
            VType::Null => VTypeView::Null,
        }
    }
}

/// A named item of the projection list.
#[derive(Debug)]
pub struct Identifier {
    pub value: VType,
}

impl View for Identifier {
    type V = VTypeView;

    open spec fn view(&self) -> VTypeView {
        self.value@
    }
}

} // verus!
