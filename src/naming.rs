use vstd::prelude::*;

verus! {

/// Suffix of a recording's file while it is still being written.
pub const PART_SUFFIX: &'static str = ".part";

/// Suffix of a recording's file once written but not yet stored for good.
pub const LOCAL_SUFFIX: &'static str = ".local";

/// The file name of the FLAC recording of segment `id`, with `suffix` after
/// the extension (empty for the final name).
pub fn recording_file_name(id: &str, suffix: &str) -> (r: String)
    ensures
        r@ == "recording-"@ + id@ + ".flac"@ + suffix@,
{
    let mut r = String::from_str("recording-");
    r.append(id);
    r.append(".flac");
    r.append(suffix);
    r
}

/// The name under which the recording of segment `id` is uploaded.
pub fn flac_object_name(id: &str) -> (r: String)
    ensures
        r@ == id@ + ".flac"@,
{
    let mut r = String::from_str(id);
    r.append(".flac");
    r
}

} // verus!
