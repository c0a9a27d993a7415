//! Data definitions for database diagrams.

use ms_oforms::properties::types::{Position, Size};
use std::collections::HashMap;
use vstd::prelude::*;

verus! {

/// The size of a control, as the forms library holds it. Nothing in this
/// crate looks inside a value.
#[verifier::external_type_specification]
#[verifier::external_body]
pub struct ExSize(Size);

/// The position of a control, as the forms library holds it. Nothing in this
/// crate looks inside a value.
#[verifier::external_type_specification]
#[verifier::external_body]
pub struct ExPosition(Position);

/// The grid control that shows one table of a diagram.
#[derive(Debug)]
pub struct SchGrid {
    pub d1: u32,
    pub d2: u32,
    pub d3: u32,
    pub d4: u32,
    pub d6: u32,
    pub d9: u32,
    pub d12: u32,
    pub d14: Vec<u32>,
    pub size1: Size,
    pub size2: Size,
    pub name: String,
    pub table: String,
    pub schema: String,
}

/// The control that draws one relationship of a diagram.
#[derive(Debug)]
pub struct Control1 {
    pub positions: Vec<Position>,
    pub pos: Position,
    pub d1: u16,
    pub d3: u32,
    pub d4: u32,
    pub d5: u32,
    pub d6: u32,
    pub d7: u32,
    pub d9: u32,
}

/// One table reference in a diagram's data source.
#[derive(Debug, Clone)]
pub struct DSRefSchemaEntry {
    pub k1: u32,
    pub table: String,
    pub schema: String,
}

/// The data source that a diagram refers to.
#[derive(Debug)]
pub struct DSRefSchemaContents {
    pub name: String,
    pub guid: String,
    pub tables: Vec<DSRefSchemaEntry>,
    pub settings: HashMap<String, String>,
}

/// A table of a diagram.
#[derive(Debug)]
pub struct Table {
    pub sch_grid: SchGrid,
    pub caption: String,
}

/// A relationship between two tables of a diagram.
#[derive(Debug)]
pub struct Relationship {
    pub control: Control1,
    pub caption: String,
    pub from: String,
    pub to: String,
    pub name: String,
}

/// A database diagram.
#[derive(Debug)]
pub struct SysDiagram {
    pub tables: Vec<Table>,
    pub relationships: Vec<Relationship>,
    pub dsref_schema_contents: DSRefSchemaContents,
}

} // verus!
