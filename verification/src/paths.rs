//! The names under which maps and regions are stored.
//!
//! Every map has a namespace of its own, `maps/<map id>/`. It holds the
//! map's blob, `<map id>.map`, and one blob for each region that was paged
//! out, `<region id>.region`.

use crate::ident::{id_text, id_to_text};
use vstd::prelude::*;
use vstd::string::*;

verus! {

/// The namespace of the map whose identifier has the given text.
pub open spec fn map_dir(id: Seq<char>) -> Seq<char> {
    "maps/"@ + id + "/"@
}

/// The name of the blob of the map whose identifier has the given text.
pub open spec fn map_key(id: Seq<char>) -> Seq<char> {
    map_dir(id) + id + ".map"@
}

/// The name of a region's blob in the namespace `dir`.
pub open spec fn region_key(dir: Seq<char>, region_id: u128) -> Seq<char> {
    dir + id_text(region_id) + ".region"@
}

/// The text of an identifier: 32 hexadecimal digits, hyphenated.
pub fn id_string(id: u128) -> (text: String)
    ensures
        text@ == id_text(id),
{
    id_to_text(id)
}

/// The namespace of a map, from the text of its identifier.
pub fn map_storage_dir(id: &String) -> (dir: String)
    ensures
        dir@ == map_dir(id@),
{
    String::from_str("maps/").concat(id.as_str()).concat("/")
}

/// The name of a map's blob, from the text of its identifier.
pub fn map_blob_key(id: &String) -> (key: String)
    ensures
        key@ == map_key(id@),
{
    map_storage_dir(id).concat(id.as_str()).concat(".map")
}

/// The name of a region's blob in the namespace `dir`.
pub fn region_blob_key(dir: &String, region_id: u128) -> (key: String)
    ensures
        key@ == region_key(dir@, region_id),
{
    let text = id_to_text(region_id);
    dir.clone().concat(text.as_str()).concat(".region")
}

} // verus!
