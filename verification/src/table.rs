use vstd::prelude::*;

use crate::grid::grid_axis_gaps;
use crate::model::{SemanticNode, TableDataSource, TableSpec};
use crate::pt::Pt;
use crate::text::{join, owned};

verus! {

/// Row and column gaps of a table: the axis gap when declared, else the common gap.
pub fn table_axis_gaps(spec: &TableSpec) -> (r: (Pt, Pt))
    ensures
        r.0.0 == (match spec.row_gap {
            Some(g) => g,
            None => spec.gap,
        }),
        r.1.0 == (match spec.column_gap {
            Some(g) => g,
            None => spec.gap,
        }),
{
    grid_axis_gaps(spec.gap, spec.row_gap, spec.column_gap)
}

/// The inline rows of a table; asset-backed data must be expanded before layout.
pub fn inline_rows(spec: &TableSpec) -> (r: Result<&Vec<Vec<SemanticNode>>, String>)
    ensures
        match spec.data {
            TableDataSource::Inline { rows } => r matches Ok(v) && *v == rows,
            TableDataSource::Asset { .. } => r is Err,
        },
{
    match &spec.data {
        TableDataSource::Inline { rows } => Ok(rows),
        TableDataSource::Asset { source } => {
            let m = join(owned("Table uses asset-backed data source '"), source.as_str());
            Err(join(m, "'. Compile must expand assets before layout."))
        },
    }
}

} // verus!
