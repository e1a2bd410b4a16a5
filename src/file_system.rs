//! Where the bytes of documents are kept: paths under a root directory.

use vstd::prelude::*;
use crate::text::{push_signed_decimal, signed_decimal};

verus! {

/// The path of a document's bytes, relative to the file store's root:
/// `companies/<company id>/documents/<document id>_<name>`.
pub open spec fn document_path(company_id: i64, id: i64, name: Seq<char>) -> Seq<char> {
    company_dir(company_id) + "/documents/"@ + signed_decimal(id as int) + "_"@ + name
}

/// The directory that holds everything of company `company_id`.
pub open spec fn company_dir(company_id: i64) -> Seq<char> {
    "companies/"@ + signed_decimal(company_id as int)
}

/// Builds the path of a document's bytes.
pub fn document_path_of(company_id: i64, id: i64, name: &str) -> (r: String)
    ensures
        r@ == document_path(company_id, id, name@),
{
    let mut r = company_dir_of(company_id);
    r.append("/documents/");
    push_signed_decimal(&mut r, id);
    r.append("_");
    r.append(name);
    r
}

/// Builds the directory of company `company_id`.
pub fn company_dir_of(company_id: i64) -> (r: String)
    ensures
        r@ == company_dir(company_id),
{
    let mut r = String::from_str("companies/");
    push_signed_decimal(&mut r, company_id);
    r
}

/// A file store rooted at a directory.
#[derive(Debug)]
pub struct FileSystem {
    pub root: String,
}

impl FileSystem {
    /// The full path of `path`, which is relative to the root.
    pub fn full_path(&self, path: &str) -> (r: String)
        ensures
            r@ == self.root@ + "/"@ + path@,
    {
        let mut r = self.root.clone();
        r.append("/");
        r.append(path);
        r
    }
}

/// A request to delete the document with this id.
#[derive(Debug)]
pub struct DeleteData {
    pub id: i64,
}

} // verus!
