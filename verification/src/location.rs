use vstd::prelude::*;

verus! {

/// A point in scanned text: row and column (starting at caller-chosen
/// values, commonly zero), with an optional name of the source the text
/// came from.
#[derive(Debug, PartialEq)]
pub struct Location {
    pub row: usize,
    pub column: usize,
    pub path: Option<String>,
}

/// Mathematical value of a `Location`: the same three fields with
/// unbounded coordinates.
pub ghost struct SpecLocation {
    pub row: int,
    pub column: int,
    pub path: Option<Seq<char>>,
}

impl View for Location {
    type V = SpecLocation;

    open spec fn view(&self) -> SpecLocation {
        SpecLocation {
            row: self.row as int,
            column: self.column as int,
            path: match self.path {
                Some(p) => Some(p@),
                None => None,
            },
        }
    }
}

impl Location {
    pub fn new(column: usize, row: usize, path: Option<String>) -> (r: Self)
        ensures
            r.row == row,
            r.column == column,
            r.path == path,
    {
        Self { column, row, path }
    }
}

impl Clone for Location {
    fn clone(&self) -> (r: Self)
        ensures
            r@ == self@,
            r.row == self.row,
            r.column == self.column,
    {
        Location {
            row: self.row,
            column: self.column,
            path: match &self.path {
                Some(p) => Some(p.clone()),
                None => None,
            },
        }
    }
}

impl Default for Location {
    fn default() -> (r: Self)
        ensures
            r@ == (SpecLocation { row: 0, column: 0, path: None }),
    {
        Self { row: 0, column: 0, path: None }
    }
}

impl From<(usize, usize)> for Location {
    fn from(pair: (usize, usize)) -> (r: Self)
    {
        Self { row: pair.0, column: pair.1, path: None }
    }
}

impl vstd::std_specs::convert::FromSpecImpl<(usize, usize)> for Location {
    open spec fn obeys_from_spec() -> bool {
        true
    }

    open spec fn from_spec(pair: (usize, usize)) -> Location {
        Location { row: pair.0, column: pair.1, path: None }
    }
}

} // verus!
