//! Geometry, parts, routing and import core of a small electronic CAD engine.

pub mod coord;
pub mod binary64;
pub mod geom;
pub mod doc;
pub mod drivers;
pub mod history;
pub mod id;
pub mod iface_infer;
pub mod ir;
pub mod kicad;
pub mod listing;
pub mod mention;
pub mod names;
pub mod numbered;
pub mod part;
pub mod ports;
pub mod precision;
pub mod project;
pub mod query;
pub mod route;
pub mod session;
pub mod spelling;
pub mod text;
pub mod turning;

use crate::doc::Doc;
use crate::history::History;
use crate::names::Duplicate;
use vstd::prelude::*;

verus! {

/// Build a root document from what elaborating its source gave: the first commit of a
/// history that starts with the empty document.
pub fn boot<E>(elaborated: Result<Doc, E>) -> (r: Result<Doc, E>)
    ensures
        match (elaborated, r) {
            (Ok(d), Ok(b)) => b@ == d@,
            (Err(e), Err(f)) => f == e,
            _ => false,
        },
{
    let mut h = History::new(Doc::default());
    match h.commit(elaborated, "boot") {
        Ok(_) => Ok(h.doc().duplicate()),
        Err(e) => Err(e),
    }
}

} // verus!
