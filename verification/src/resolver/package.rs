//! The packages that take part in a resolution.

use vstd::prelude::*;
use crate::text::str_eq;

verus! {

/// A package of the resolution graph.
#[derive(Debug, PartialEq, Eq, Hash)]
pub enum GustPackage {
    /// The project being resolved; resolution starts here.
    Root,
    /// A package known by its name.
    Named(String),
}

/// A package as a mathematical value.
pub enum PackageModel {
    Root,
    Named(Seq<char>),
}

impl View for GustPackage {
    type V = PackageModel;

    open spec fn view(&self) -> PackageModel {
        match self {
            GustPackage::Root => PackageModel::Root,
            GustPackage::Named(name) => PackageModel::Named(name@),
        }
    }
}

impl Clone for GustPackage {
    fn clone(&self) -> (r: Self)
        ensures
            r == *self,
    {
        match self {
            GustPackage::Root => GustPackage::Root,
            GustPackage::Named(name) => GustPackage::Named(name.clone()),
        }
    }
}

/// How a package is written: the root as `<root>`, any other by its name.
pub open spec fn package_text(p: PackageModel) -> Seq<char> {
    match p {
        PackageModel::Root => "<root>"@,
        PackageModel::Named(name) => name,
    }
}

impl GustPackage {
    /// The package called `name`.
    pub fn named(name: &str) -> (r: Self)
        ensures
            r@ == PackageModel::Named(name@),
    {
        GustPackage::Named(String::from_str(name))
    }

    /// The name of the package; the root has none.
    pub fn name(&self) -> (r: Option<&str>)
        ensures
            match r {
                Some(n) => self@ == PackageModel::Named(n@),
                None => self@ == PackageModel::Root,
            },
    {
        match self {
            GustPackage::Root => None,
            GustPackage::Named(name) => Some(name.as_str()),
        }
    }

    /// Whether this is the root.
    pub fn is_root(&self) -> (r: bool)
        ensures
            r == (self@ == PackageModel::Root),
    {
        match self {
            GustPackage::Root => true,
            GustPackage::Named(_) => false,
        }
    }

    /// Whether the two are the same package.
    pub fn same(&self, other: &GustPackage) -> (r: bool)
        ensures
            r == (self@ == other@),
    {
        match (self, other) {
            (GustPackage::Root, GustPackage::Root) => true,
            (GustPackage::Named(a), GustPackage::Named(b)) => str_eq(a.as_str(), b.as_str()),
            _ => false,
        }
    }

    /// How the package is written.
    pub fn to_string(&self) -> (out: String)
        ensures
            out@ == package_text(self@),
    {
        match self {
            GustPackage::Root => String::from_str("<root>"),
            GustPackage::Named(name) => name.clone(),
        }
    }
}

} // verus!
