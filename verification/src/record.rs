//! The package record and its mathematical model.

use vstd::prelude::*;
use crate::text::opt_view;

verus! {

/// The model of one table row: a record as sequences of characters.
pub ghost struct Record {
    /// Attribute path, the primary key.
    pub attr: Seq<char>,
    /// Human-facing package name; several records may share it.
    pub name: Seq<char>,
    /// Version string, or `None` where no version is known.
    pub version: Option<Seq<char>>,
    /// Description, or `None` where there is none.
    pub description: Option<Seq<char>>,
}

/// One package of the index.
#[derive(Debug, PartialEq, Eq)]
pub struct PackageInfo {
    pub attr: String,
    pub name: String,
    pub version: Option<String>,
    pub description: Option<String>,
}

impl View for PackageInfo {
    type V = Record;

    open spec fn view(&self) -> Record {
        Record {
            attr: self.attr@,
            name: self.name@,
            version: opt_view(self.version),
            description: opt_view(self.description),
        }
    }
}

/// The models of a sequence of packages, in the same order.
pub open spec fn records(rows: Seq<PackageInfo>) -> Seq<Record> {
    rows.map_values(|p: PackageInfo| p@)
}

/// Copies an optional string.
pub fn copy_opt(s: &Option<String>) -> (out: Option<String>)
    ensures
        opt_view(out) == opt_view(*s),
{
    match s {
        Some(t) => Some(t.clone()),
        None => None,
    }
}

impl PackageInfo {
    /// Builds a record from its four fields.
    pub fn new(attr: String, name: String, version: Option<String>, description: Option<String>) -> (p: PackageInfo)
        ensures
            p.attr == attr,
            p.name == name,
            p.version == version,
            p.description == description,
    {
        PackageInfo { attr, name, version, description }
    }

    /// A copy with the same contents.
    pub fn duplicate(&self) -> (p: PackageInfo)
        ensures
            p@ == self@,
    {
        PackageInfo {
            attr: self.attr.clone(),
            name: self.name.clone(),
            version: copy_opt(&self.version),
            description: copy_opt(&self.description),
        }
    }
}

impl Clone for PackageInfo {
    fn clone(&self) -> (p: PackageInfo)
        ensures
            p@ == self@,
    {
        self.duplicate()
    }
}

} // verus!
