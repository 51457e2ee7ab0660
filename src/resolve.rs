//! The fallback chain that gives each file one timestamp.
use vstd::prelude::*;
use crate::index::MetadataIndex;
use crate::timestamp::{
    embedded_capture_time, embedded_time_of, filesystem_time_of, resolution,
    resolve_from_sources, ResolvedTimestamp, TimestampSource,
};

verus! {

/// The instant that an index records for a name, if any.
pub open spec fn index_entry(index: Map<Seq<char>, i64>, name: Seq<char>) -> Option<i64> {
    if index.contains_key(name) {
        Some(index[name])
    } else {
        None
    }
}

/// Resolves the timestamp of the file named `name` with bytes `contents`
/// and filesystem times `created` and `modified`: the sidecar entry for
/// its exact name, else its embedded capture tag read as UTC, else its
/// creation time, else its modification time. The embedded tag is read
/// only where the index has no entry.
pub fn resolve_timestamp(
    index: &MetadataIndex,
    name: &str,
    contents: &Vec<u8>,
    created: Option<i64>,
    modified: Option<i64>,
) -> (r: Option<ResolvedTimestamp>)
    requires
        index.wf(),
    ensures
        r == resolution(index_entry(index@, name@), embedded_time_of(contents@), created, modified),
        index@.contains_key(name@) ==> r == Some(
            ResolvedTimestamp { epoch_secs: index@[name@], source: TimestampSource::SidecarMetadata },
        ),
        (!index@.contains_key(name@) && embedded_time_of(contents@) is Some) ==> r == Some(
            ResolvedTimestamp {
                epoch_secs: embedded_time_of(contents@)->0,
                source: TimestampSource::EmbeddedCaptureTag,
            },
        ),
        (!index@.contains_key(name@) && embedded_time_of(contents@) is None) ==> r == (
        match filesystem_time_of(created, modified) {
            Some(f) => Some(
                ResolvedTimestamp { epoch_secs: f, source: TimestampSource::FilesystemTime },
            ),
            None => None,
        }),
{
    let sidecar = index.lookup(name);
    let embedded = if sidecar.is_some() {
        None
    } else {
        embedded_capture_time(contents)
    };
    resolve_from_sources(sidecar, embedded, created, modified)
}

} // verus!
