//! Bookkeeping of scraped pages: which addresses have been fetched and
//! which were skipped, so a page is never pulled twice.

use vstd::prelude::*;

verus! {

/// One fetched or skipped page.
#[derive(Clone, Debug)]
pub struct UrlHistoryItem {
    pub time: String,
    pub url: String,
    pub name: String,
    pub processed: bool,
}

/// The full fetch history.
#[derive(Clone, Debug)]
pub struct UrlHistory {
    pub grabbed_json_history: Vec<UrlHistoryItem>,
    pub skipped: Vec<UrlHistoryItem>,
}

impl UrlHistory {
    /// The addresses already fetched, in recorded order.
    pub fn get_grabbed(&self) -> (r: Vec<String>)
        ensures
            r@.len() == self.grabbed_json_history@.len(),
            forall|i: int|
                0 <= i < r@.len() ==> #[trigger] r@[i]@ == self.grabbed_json_history@[i].url@,
    {
        let mut r: Vec<String> = Vec::new();
        let mut i: usize = 0;
        while i < self.grabbed_json_history.len()
            invariant
                0 <= i <= self.grabbed_json_history@.len(),
                r@.len() == i,
                forall|j: int|
                    0 <= j < i ==> #[trigger] r@[j]@ == self.grabbed_json_history@[j].url@,
            decreases self.grabbed_json_history@.len() - i,
        {
            r.push(self.grabbed_json_history[i].url.clone());
            i += 1;
        }
        r
    }
}

} // verus!
