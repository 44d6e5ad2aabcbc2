//! Re-matching the rider's sections to a new region: the key a store
//! remembers for the region its sections were last matched to.

use vstd::prelude::*;
use vstd::string::{StringExecFns, StringSliceAdditionalSpecFns};
use crate::error::{owned, signed_decimal, with_number, with_signed, CoreError};
use crate::gpx::text::decimal;
use crate::region::layout::{edges, points, section_bytes};
use crate::region::{Region, RegionInfo};

verus! {

/// Longest region key a store keeps (the region header's fields are short).
pub const MAX_KEY_BYTES: usize = 512;

/// The key of a region with header fields `info`, `nodes` nodes and
/// `edges` edges: source, timestamp, builder, node and edge counts, joined
/// by `|`. It changes with the OSM data, the builder, or the graph built.
pub open spec fn key_text(info: RegionInfo, nodes: nat, edges: nat) -> Seq<char> {
    info.source_name@ + "|"@ + signed_decimal(info.osm_timestamp as int) + "|"@ + info.builder_version@ + "|"@
        + decimal(nodes) + "|"@ + decimal(edges)
}

/// The key a store remembers for the region its sections were matched to.
pub fn region_key(region: &Region) -> (s: String)
    ensures
        s@ == key_text(
            region.header_info(),
            points(section_bytes(region.file(), 1)).len(),
            edges(section_bytes(region.file(), 5)).len(),
        ),
{
    let info = region.info();
    let source = owned(info.source_name.as_str()).concat("|");
    let head = with_signed(source.as_str(), info.osm_timestamp, "|");
    let with_builder = head.concat(info.builder_version.as_str()).concat("|");
    let with_nodes = with_number(with_builder.as_str(), region.node_count() as u64, "|");
    let key = with_number(with_nodes.as_str(), region.edge_count() as u64, "");
    proof {
        reveal_strlit("");
        let hi = region.header_info();
        assert(head@ == hi.source_name@ + "|"@ + signed_decimal(hi.osm_timestamp as int) + "|"@);
        assert(with_builder@ == head@ + hi.builder_version@ + "|"@);
        assert(with_nodes@ == with_builder@ + decimal(points(section_bytes(region.file(), 1)).len()) + "|"@);
        assert(key@ == with_nodes@ + decimal(edges(section_bytes(region.file(), 5)).len()) + ""@);
        assert(key@ =~= key_text(
            region.header_info(),
            points(section_bytes(region.file(), 1)).len(),
            edges(section_bytes(region.file(), 5)).len(),
        ));
    }
    key
}

/// Refuses a region key longer than [`MAX_KEY_BYTES`] bytes.
pub fn check_region_key(key: &str) -> (r: Result<(), CoreError>)
    ensures
        r is Ok <==> key.spec_bytes().len() <= MAX_KEY_BYTES,
        r matches Err(e) ==> e is InvalidArgument,
        r is Err ==> (r matches Err(CoreError::InvalidArgument(m)) && m@ == "region key too long"@),
{
    let bytes = key.as_bytes();
    proof { crate::le::lemma_slice_len_bound(bytes); }
    if bytes.len() > MAX_KEY_BYTES {
        return Err(CoreError::InvalidArgument(owned("region key too long")));
    }
    Ok(())
}

} // verus!
