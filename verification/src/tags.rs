//! User tags on tracks: the rows served and the checks made before writing.
use vstd::prelude::*;

use crate::error::{ApiError, STATUS_BAD_REQUEST, STATUS_NOT_FOUND, STATUS_NO_CONTENT};
use crate::text::{trim, trim_chars};

verus! {

broadcast use vstd::string::group_string_axioms;

/// A tag on a track, with when it was added.
pub struct TrackTagRow {
    pub tag_id: i64,
    pub namespace: String,
    pub value: String,
    pub added_at: i64,
}

/// The body of a request that adds a tag.
pub struct NewTag {
    pub namespace: String,
    pub value: String,
}

/// The tag that was added.
pub struct AddedTag {
    pub tag_id: i64,
    pub namespace: String,
    pub value: String,
}

/// A tag and the number of distinct tracks carrying it.
pub struct TagCount {
    pub tag_id: i64,
    pub namespace: String,
    pub value: String,
    pub track_count: i64,
}

/// The tag to store for a request: namespace and value trimmed; an empty
/// trimmed value is refused with 400 "value must be non-empty".
pub fn validate_new_tag(body: &NewTag) -> (r: Result<NewTag, ApiError>)
    ensures
        if trim_chars(body.value@).len() == 0 {
            r matches Err(e) && e.status == STATUS_BAD_REQUEST && e.message@
                == "value must be non-empty"@
        } else {
            r matches Ok(t) && t.namespace@ == trim_chars(body.namespace@) && t.value@
                == trim_chars(body.value@)
        },
{
    let namespace = trim(body.namespace.as_str());
    let value = trim(body.value.as_str());
    if value.unicode_len() == 0 {
        return Err(ApiError::bad_request(String::from_str("value must be non-empty")));
    }
    Ok(NewTag { namespace: String::from_str(namespace), value: String::from_str(value) })
}

/// The tag that was added, as answered to the client.
pub fn added_tag(tag_id: i64, tag: NewTag) -> (a: AddedTag)
    ensures
        a.tag_id == tag_id,
        a.namespace == tag.namespace,
        a.value == tag.value,
{
    AddedTag { tag_id, namespace: tag.namespace, value: tag.value }
}

/// The answer to removing a tag from a track, given how many rows the
/// removal deleted: 204, or 404 "tag on track not found" when none.
pub fn tag_removal_status(rows_affected: u64) -> (r: Result<u16, ApiError>)
    ensures
        rows_affected == 0 ==> (r matches Err(e) && e.status == STATUS_NOT_FOUND && e.message@
            == "tag on track"@ + " not found"@),
        rows_affected != 0 ==> r == Ok::<u16, ApiError>(STATUS_NO_CONTENT),
{
    if rows_affected == 0 {
        Err(ApiError::not_found("tag on track"))
    } else {
        Ok(STATUS_NO_CONTENT)
    }
}

/// Whether the looked-up track exists in the library: 404 "track not found" if not.
pub fn require_track_found(found: Option<i64>) -> (r: Result<(), ApiError>)
    ensures
        found is None ==> (r matches Err(e) && e.status == STATUS_NOT_FOUND && e.message@
            == "track"@ + " not found"@),
        found is Some ==> r is Ok,
{
    if found.is_none() {
        Err(ApiError::not_found("track"))
    } else {
        Ok(())
    }
}

} // verus!
