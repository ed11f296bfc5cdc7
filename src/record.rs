use vstd::prelude::*;

verus! {

/// The WARC headers that a corpus record carries; none of them is counted.
#[derive(Debug, Clone, PartialEq, Eq, Default)]
pub struct WarcHeaders {
    pub warc_identified_content_language: Option<String>,
    pub warc_target_uri: Option<String>,
    pub warc_record_id: Option<String>,
    pub warc_type: Option<String>,
    pub content_length: Option<String>,
    pub warc_refers_to: Option<String>,
    pub warc_block_digest: Option<String>,
    pub warc_date: Option<String>,
    pub content_type: Option<String>,
}

} // verus!
