//! Parsing YAML into trees with source locations.

use crate::builder;
use crate::builder::build_document;
use crate::error::{Error, ErrorView};
use crate::event::EventView;
use crate::laws;
use crate::node::{NodeView, YamlWithSourceInfo};
use crate::source_info::{FileId, SourceInfo, SourceView};
use crate::source_text::Marker;
use crate::stream;
use crate::stream::{load_events, FailureView, ScanFailure};
use crate::text;
use crate::text::str_len;
use crate::tree;
use crate::tree::Origin;
use std::collections::hash_map::DefaultHasher;
use std::hash::{Hash, Hasher};
use vstd::prelude::*;
use vstd::std_specs::hash::*;

verus! {

/// What `str`'s `Hash::hash` feeds to a hasher.
pub uninterp spec fn str_hash_writes(s: Seq<char>) -> Seq<Seq<u8>>;

/// Feeds `s` to `hasher` with `str`'s `Hash::hash`.
///
/// Taken on trust: what is fed depends on the text alone, and comes after what the
/// hasher was fed before.
#[verifier::external_body]
fn hash_str(s: &str, hasher: &mut DefaultHasher)
    ensures
        final(hasher)@ == old(hasher)@ + str_hash_writes(s@),
{
    s.hash(hasher)
}

/// The number of the file with the given name: the name's hash.
pub open spec fn filename_id(filename: Seq<char>) -> FileId {
    FileId(DefaultHasher::spec_finish(str_hash_writes(filename)) as usize)
}

/// The error that a failure stands for.
pub open spec fn scan_error(failure: FailureView) -> ErrorView {
    ErrorView::ParseError { message: failure.message, location: Some(failure.marker) }
}

/// What parsing gives, once the events have been read or could not be.
pub open spec fn parsed(
    origin: Origin,
    events: Result<Seq<(EventView, Marker)>, FailureView>,
) -> Result<NodeView, ErrorView> {
    match events {
        Ok(events) => match tree::document(origin, events) {
            Some(node) => Ok(node),
            None => Err(builder::no_document()),
        },
        Err(failure) => Err(scan_error(failure)),
    }
}

/// What parsing the text of an origin gives.
pub open spec fn parse_result(origin: Origin) -> Result<NodeView, ErrorView> {
    parsed(origin, stream::yaml_events(origin.source))
}

/// The view of a result.
pub open spec fn result_view(result: Result<YamlWithSourceInfo, Error>) -> Result<
    NodeView,
    ErrorView,
> {
    match result {
        Ok(node) => Ok(node@),
        Err(error) => Err(error@),
    }
}

/// Whether the tree of a successful result belongs to the text: the text can be sliced
/// with every place in it, and every value agrees with what it is made of.
pub open spec fn tree_holds(origin: Origin, result: Result<YamlWithSourceInfo, Error>) -> bool {
    result matches Ok(node) ==> laws::places_hold(origin, node@) && laws::parallel(node@)
}

/// The text of a file, and that it is all of it.
pub open spec fn file_origin(content: Seq<char>, filename: Seq<char>) -> Origin {
    Origin {
        source: content,
        parent: Some(
            SourceView::Original {
                file_id: filename_id(filename),
                start: 0,
                end: text::byte_len(content) as int,
            },
        ),
    }
}

/// The number of the file with the given name, as `parse_file` uses it.
pub fn file_id_for_filename(filename: &str) -> (id: FileId)
    ensures
        id == filename_id(filename@),
{
    let mut hasher = DefaultHasher::new();
    hash_str(filename, &mut hasher);
    proof {
        assert(hasher@ =~= str_hash_writes(filename@));
    }
    FileId(hasher.finish() as usize)
}

/// The error that a failure stands for.
fn error_from(failure: ScanFailure) -> (error: Error)
    ensures
        error@ == scan_error(failure@),
{
    Error::ParseError { message: failure.message, location: Some(failure.marker) }
}

/// Where a text comes from: a parent if one is given, else the whole file if a filename
/// is given.
pub open spec fn impl_origin(
    content: Seq<char>,
    filename: Option<&str>,
    parent: Option<SourceInfo>,
) -> Origin {
    match (parent, filename) {
        (Some(p), _) => Origin { source: content, parent: Some(p@) },
        (None, Some(name)) => file_origin(content, name@),
        (None, None) => Origin { source: content, parent: None },
    }
}

/// Parses `content`. A filename stands for a parent that is the whole file, unless a
/// parent is given.
fn parse_impl(
    content: &str,
    filename: Option<&str>,
    parent: Option<SourceInfo>,
) -> (result: Result<YamlWithSourceInfo, Error>)
    ensures
        result_view(result) == parse_result(impl_origin(content@, filename, parent)),
        tree_holds(impl_origin(content@, filename, parent), result),
{
    let parent = match (parent, filename) {
        (Some(p), _) => Some(p),
        (None, Some(name)) => Some(
            SourceInfo::original(file_id_for_filename(name), 0, str_len(content)),
        ),
        (None, None) => None,
    };
    match load_events(content) {
        Ok(events) => build_document(content, parent, events),
        Err(failure) => Err(error_from(failure)),
    }
}

/// Parses the first document of a text.
///
/// The places in the tree are ranges of the anonymous file.
pub fn parse(content: &str) -> (result: Result<YamlWithSourceInfo, Error>)
    ensures
        result_view(result) == parse_result(Origin { source: content@, parent: None }),
        tree_holds(Origin { source: content@, parent: None }, result),
{
    parse_impl(content, None, None)
}

/// Parses the first document of a file's text.
///
/// The places in the tree are ranges of that file, whose number is given by
/// [`file_id_for_filename`].
pub fn parse_file(content: &str, filename: &str) -> (result: Result<YamlWithSourceInfo, Error>)
    ensures
        result_view(result) == parse_result(file_origin(content@, filename@)),
        tree_holds(file_origin(content@, filename@), result),
{
    parse_impl(content, Some(filename), None)
}

/// Parses the first document of a text that is part of another.
///
/// The places in the tree are ranges of the text, and `parent` says where the text
/// comes from.
pub fn parse_with_parent(content: &str, parent: SourceInfo) -> (result: Result<
    YamlWithSourceInfo,
    Error,
>)
    ensures
        result_view(result) == parse_result(
            Origin { source: content@, parent: Some(parent@) },
        ),
        tree_holds(Origin { source: content@, parent: Some(parent@) }, result),
{
    parse_impl(content, None, Some(parent))
}

} // verus!
