//! The sizes a widget can have on the grid.

use crate::digits::decimal;
use vstd::prelude::*;

verus! {

/// The size of a widget: one cell, two cells side by side, or two by two.
#[derive(Debug, Clone, Copy, PartialEq, Eq, Structural)]
pub enum WidgetSize {
    Small,
    Medium,
    Large,
}

/// The length of the side of one grid cell, in the units of the style classes.
pub const CELL_UNITS: usize = 28;

impl WidgetSize {
    /// The number of grid rows the widget spans.
    pub open spec fn spec_row_span(&self) -> usize {
        match self {
            WidgetSize::Small => 1,
            WidgetSize::Medium => 1,
            WidgetSize::Large => 2,
        }
    }

    /// The number of grid columns the widget spans.
    pub open spec fn spec_col_span(&self) -> usize {
        match self {
            WidgetSize::Small => 1,
            WidgetSize::Medium => 2,
            WidgetSize::Large => 2,
        }
    }

    /// The style classes that give the widget its width and height: one cell
    /// length for each column and each row it spans.
    pub fn size_class(&self) -> (r: &'static str)
        ensures
            r@ == "w-"@ + decimal((CELL_UNITS * self.col_span()) as nat) + " h-"@ + decimal(
                (CELL_UNITS * self.row_span()) as nat,
            ),
    {
        proof {
            reveal_strlit("w-");
            reveal_strlit(" h-");
            reveal_strlit("w-28 h-28");
            reveal_strlit("w-56 h-28");
            reveal_strlit("w-56 h-56");
            reveal_with_fuel(decimal, 3);
        }
        let r = match self {
            Self::Small => "w-28 h-28",
            Self::Medium => "w-56 h-28",
            Self::Large => "w-56 h-56",
        };
        assert(r@ =~= "w-"@ + decimal((CELL_UNITS * self.col_span()) as nat) + " h-"@ + decimal(
            (CELL_UNITS * self.row_span()) as nat,
        ));
        r
    }

    /// The style classes that place the widget on the grid: the rows and the
    /// columns it spans.
    pub fn class(&self) -> (r: &'static str)
        ensures
            r@ == "row-span-"@ + decimal(self.row_span() as nat) + " col-span-"@ + decimal(
                self.col_span() as nat,
            ),
    {
        proof {
            reveal_strlit("row-span-");
            reveal_strlit(" col-span-");
            reveal_strlit("row-span-1 col-span-1");
            reveal_strlit("row-span-1 col-span-2");
            reveal_strlit("row-span-2 col-span-2");
            reveal_with_fuel(decimal, 2);
        }
        let r = match self {
            Self::Small => "row-span-1 col-span-1",
            Self::Medium => "row-span-1 col-span-2",
            Self::Large => "row-span-2 col-span-2",
        };
        assert(r@ =~= "row-span-"@ + decimal(self.row_span() as nat) + " col-span-"@ + decimal(
            self.col_span() as nat,
        ));
        r
    }

    /// The number of grid rows the widget spans.
    #[verifier::when_used_as_spec(spec_row_span)]
    pub fn row_span(&self) -> (r: usize)
        ensures
            r == self.row_span(),
    {
        match self {
            Self::Small => 1,
            Self::Medium => 1,
            Self::Large => 2,
        }
    }

    /// The number of grid columns the widget spans.
    #[verifier::when_used_as_spec(spec_col_span)]
    pub fn col_span(&self) -> (r: usize)
        ensures
            r == self.col_span(),
    {
        match self {
            Self::Small => 1,
            Self::Medium => 2,
            Self::Large => 2,
        }
    }

    /// The size with the given number: 0 for small, 1 for medium, 2 for large.
    pub fn from_index(value: usize) -> (r: WidgetSize)
        requires
            value <= 2,
        ensures
            r == (match value {
                0usize => WidgetSize::Small,
                1usize => WidgetSize::Medium,
                _ => WidgetSize::Large,
            }),
    {
        match value {
            0 => Self::Small,
            1 => Self::Medium,
            _ => Self::Large,
        }
    }
}

} // verus!
