//! The rows of a table as a whole: what a row must look like to belong to a table, and the
//! change of all rows at once.

use vstd::prelude::*;

use crate::error::{FieldKind, RLibError, Result};
use crate::table::cells::{row_view, rows_view, Cell, DecodedData};
use crate::table::decode::Table;
use crate::table::encode::{
    cap, capped, column_by_name, find_column, processed_columns, processed_view, ProcessedField,
    ProcessedFieldView,
};

verus! {

/// True when the cell is of the type that a column of the given kind holds.
pub open spec fn cell_is_of(kind: FieldKind, cell: Cell) -> bool {
    match (kind, cell) {
        (FieldKind::Boolean, Cell::Boolean(_)) => true,
        (FieldKind::F32, Cell::F32(_)) => true,
        (FieldKind::F64, Cell::F64(_)) => true,
        (FieldKind::I16, Cell::I16(_)) => true,
        (FieldKind::I32, Cell::I32(_)) => true,
        (FieldKind::I64, Cell::I64(_)) => true,
        (FieldKind::ColourRGB, Cell::ColourRGB(_)) => true,
        (FieldKind::StringU8, Cell::StringU8(_)) => true,
        (FieldKind::StringU16, Cell::StringU16(_)) => true,
        (FieldKind::OptionalI16, Cell::OptionalI16(_)) => true,
        (FieldKind::OptionalI32, Cell::OptionalI32(_)) => true,
        (FieldKind::OptionalI64, Cell::OptionalI64(_)) => true,
        (FieldKind::OptionalStringU8, Cell::OptionalStringU8(_)) => true,
        (FieldKind::OptionalStringU16, Cell::OptionalStringU16(_)) => true,
        (FieldKind::SequenceU16, Cell::SequenceU16(_)) => true,
        (FieldKind::SequenceU32, Cell::SequenceU32(_)) => true,
        _ => false,
    }
}

/// What stands against the cells of a row from position `i` on: the first cell that is not
/// of the type of its column.
pub open spec fn cells_fault(columns: Seq<ProcessedFieldView>, row: Seq<Cell>, i: int) -> Option<
    RLibError,
>
    decreases row.len() - i,
{
    if i < 0 || i >= row.len() || i >= columns.len() {
        None
    } else if !cell_is_of(columns[i].kind, row[i]) {
        Some(RLibError::TableWrongFieldType(i as usize, columns[i].kind))
    } else {
        cells_fault(columns, row, i + 1)
    }
}

/// What stands against a row under the given columns: it has another number of cells than
/// there are columns, or a cell that is not of the type of its column.
pub open spec fn row_fault(columns: Seq<ProcessedFieldView>, row: Seq<Cell>) -> Option<RLibError> {
    if row.len() != columns.len() {
        Some(
            RLibError::TableRowWrongFieldCount(
                capped(columns.len() as int),
                capped(row.len() as int),
            ),
        )
    } else {
        cells_fault(columns, row, 0)
    }
}

/// What stands against the rows from position `r` on: the fault of the first row that has
/// one.
pub open spec fn rows_fault(columns: Seq<ProcessedFieldView>, rows: Seq<Seq<Cell>>, r: int) -> Option<
    RLibError,
>
    decreases rows.len() - r,
{
    if r < 0 || r >= rows.len() {
        None
    } else if row_fault(columns, rows[r]) is Some {
        row_fault(columns, rows[r])
    } else {
        rows_fault(columns, rows, r + 1)
    }
}

impl DecodedData {
    /// Tells whether the cell is of the type that a column of the given kind holds.
    pub fn is_field_type_correct(&self, kind: FieldKind) -> (r: bool)
        ensures
            r == cell_is_of(kind, self@),
    {
        match (kind, self) {
            (FieldKind::Boolean, DecodedData::Boolean(_)) => true,
            (FieldKind::F32, DecodedData::F32(_)) => true,
            (FieldKind::F64, DecodedData::F64(_)) => true,
            (FieldKind::I16, DecodedData::I16(_)) => true,
            (FieldKind::I32, DecodedData::I32(_)) => true,
            (FieldKind::I64, DecodedData::I64(_)) => true,
            (FieldKind::ColourRGB, DecodedData::ColourRGB(_)) => true,
            (FieldKind::StringU8, DecodedData::StringU8(_)) => true,
            (FieldKind::StringU16, DecodedData::StringU16(_)) => true,
            (FieldKind::OptionalI16, DecodedData::OptionalI16(_)) => true,
            (FieldKind::OptionalI32, DecodedData::OptionalI32(_)) => true,
            (FieldKind::OptionalI64, DecodedData::OptionalI64(_)) => true,
            (FieldKind::OptionalStringU8, DecodedData::OptionalStringU8(_)) => true,
            (FieldKind::OptionalStringU16, DecodedData::OptionalStringU16(_)) => true,
            (FieldKind::SequenceU16, DecodedData::SequenceU16(_)) => true,
            (FieldKind::SequenceU32, DecodedData::SequenceU32(_)) => true,
            _ => false,
        }
    }
}

/// Tests a row against the columns of a table.
pub fn check_row(columns: &Vec<ProcessedField>, row: &Vec<DecodedData>) -> (r: Result<()>)
    ensures
        match row_fault(processed_view(columns@), row_view(row@)) {
            None => r is Ok,
            Some(e) => r == Err::<(), RLibError>(e),
        },
{
    let n: usize = columns.len();
    if row.len() != n {
        return Err(RLibError::TableRowWrongFieldCount(cap(n), cap(row.len())));
    }
    let mut i: usize = 0;
    while i < n
        invariant
            i <= n == columns@.len(),
            row@.len() == n,
            cells_fault(processed_view(columns@), row_view(row@), 0) == cells_fault(
                processed_view(columns@),
                row_view(row@),
                i as int,
            ),
        decreases n - i,
    {
        if !row[i].is_field_type_correct(columns[i].kind) {
            return Err(RLibError::TableWrongFieldType(i, columns[i].kind));
        }
        i = i + 1;
    }
    Ok(())
}

impl Table {
    /// The number of rows of the table.
    pub fn get_entry_count(&self) -> (r: usize)
        ensures
            r == self.entries@.len(),
    {
        self.entries.len()
    }

    /// The position of the column with the given name among the columns of the table as
    /// it shows, where there is one.
    pub fn get_column_position_by_name(&self, column_name: &str) -> (r: Option<usize>)
        ensures
            match r {
                Some(i) => i < processed_columns(self.definition).len() && i
                    == column_by_name(
                    processed_columns(self.definition),
                    column_name@,
                    0,
                ),
                None => column_by_name(
                    processed_columns(self.definition),
                    column_name@,
                    0,
                ) == processed_columns(self.definition).len(),
            },
    {
        let columns = self.definition.fields_processed();
        let i: usize = find_column(&columns, column_name);
        if i < columns.len() {
            Some(i)
        } else {
            None
        }
    }

    /// Gives the table new rows. Each row must have one cell for each column of the table
    /// as it shows, each of the type of its column: else the first fault found, row by
    /// row, is returned and the table stays as it was.
    pub fn set_table_data(&mut self, data: Vec<Vec<DecodedData>>) -> (r: Result<()>)
        ensures
            match rows_fault(processed_columns(old(self).definition), rows_view(data@), 0) {
                None => r is Ok && *final(self) == (Table { entries: data, ..*old(self) }),
                Some(e) => r == Err::<(), RLibError>(e) && *final(self) == *old(self),
            },
    {
        let columns = self.definition.fields_processed();
        let n: usize = data.len();
        let mut i: usize = 0;
        while i < n
            invariant
                i <= n == data@.len(),
                *self == *old(self),
                processed_view(columns@) == processed_columns(self.definition),
                rows_fault(processed_columns(self.definition), rows_view(data@), 0) == rows_fault(
                    processed_columns(self.definition),
                    rows_view(data@),
                    i as int,
                ),
            decreases n - i,
        {
            check_row(&columns, &data[i])?;
            i = i + 1;
        }
        self.entries = data;
        Ok(())
    }
}

} // verus!
