//! Per-message metadata and the batch coordinator: each text of a batch is
//! run through the extractor, and results keep the input order.

use vstd::prelude::*;

verus! {

use crate::patterns::spec_extract_emails;
use crate::patterns::spec_extract_urls;
use crate::patterns::PatternRegistry;

/// The metadata extracted from one text: the addresses and URLs found, with
/// their counts. The counts always equal the list lengths.
pub struct EmailMetadata {
    pub emails: Vec<String>,
    pub urls: Vec<String>,
    pub email_count: usize,
    pub url_count: usize,
}

impl EmailMetadata {
    /// The counts mirror the list lengths.
    pub open spec fn wf(self) -> bool {
        &&& self.email_count == self.emails@.len()
        &&& self.url_count == self.urls@.len()
    }
}

/// The metadata of one text, as a pair of the extracted email and URL lists.
pub open spec fn spec_metadata(t: Seq<char>) -> (Seq<Seq<char>>, Seq<Seq<char>>) {
    (spec_extract_emails(t), spec_extract_urls(t))
}

/// The metadata of every text of a batch, position by position.
pub open spec fn spec_metadata_batch(ts: Seq<Seq<char>>) -> Seq<
    (Seq<Seq<char>>, Seq<Seq<char>>),
> {
    ts.map_values(|t: Seq<char>| spec_metadata(t))
}

/// Law: batch processing agrees with independent single-text extraction at
/// every position, whatever the batch around it holds.
pub proof fn lemma_batch_matches_single(ts: Seq<Seq<char>>, i: int)
    requires
        0 <= i < ts.len(),
    ensures
        spec_metadata_batch(ts)[i] == spec_metadata(ts[i]),
{
}

impl PatternRegistry {
    /// The metadata of one text: emails lowercased in occurrence order, URLs
    /// in occurrence order, and the matching counts.
    pub fn extract_metadata(&self, text: &str) -> (r: EmailMetadata)
        requires
            self.wf(),
        ensures
            r.wf(),
            (r.emails.deep_view(), r.urls.deep_view()) == spec_metadata(text@),
    {
        let emails = self.extract_emails(text);
        let urls = self.extract_urls(text);
        let email_count = emails.len();
        let url_count = urls.len();
        EmailMetadata { emails, urls, email_count, url_count }
    }

    /// The metadata of every text of the batch; the result at each position
    /// is exactly the single-text result for the input at that position.
    pub fn process_metadata_batch(&self, texts: &Vec<String>) -> (r: Vec<EmailMetadata>)
        requires
            self.wf(),
        ensures
            r@.len() == texts@.len(),
            forall|i: int|
                0 <= i < texts@.len() ==> (#[trigger] r@[i]).wf() && (
                r@[i].emails.deep_view(),
                r@[i].urls.deep_view(),
                ) == spec_metadata_batch(texts.deep_view())[i],
    {
        let mut out: Vec<EmailMetadata> = Vec::new();
        let mut i: usize = 0;
        while i < texts.len()
            invariant
                self.wf(),
                i <= texts@.len(),
                out@.len() == i,
                forall|k: int|
                    0 <= k < i ==> (#[trigger] out@[k]).wf() && (
                    out@[k].emails.deep_view(),
                    out@[k].urls.deep_view(),
                    ) == spec_metadata_batch(texts.deep_view())[k],
            decreases texts@.len() - i,
        {
            let m = self.extract_metadata(texts[i].as_str());
            proof {
                assert(texts.deep_view()[i as int] == texts@[i as int]@);
            }
            out.push(m);
            i = i + 1;
        }
        out
    }
}

} // verus!
