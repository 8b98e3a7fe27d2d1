//! Case-insensitive substring filtering of notification rows.

use vstd::prelude::*;
use vstd::slice::slice_index_get;
use crate::text::{has_substring, lower_of, lowercase_str, str_contains, trim_of, trim_str};

verus! {

/// A case-insensitive search needle; holds nothing when the query was
/// blank, and then every row matches.
pub struct SearchFilter {
    pub needle: Option<String>,
}

impl View for SearchFilter {
    type V = Option<Seq<char>>;

    open spec fn view(&self) -> Option<Seq<char>> {
        match self.needle {
            Some(n) => Some(n@),
            None => None,
        }
    }
}

/// Some field contains the needle once folded to lower case.
pub open spec fn any_field_matches(fields: Seq<&str>, needle: Seq<char>) -> bool {
    exists|i: int| 0 <= i < fields.len() && has_substring(lower_of(#[trigger] fields[i]@), needle)
}

impl SearchFilter {
    /// Builds a filter from a raw query: surrounding whitespace is dropped
    /// and the rest is folded to lower case.
    pub fn new(raw: &str) -> (r: SearchFilter)
        ensures
            trim_of(raw@).len() == 0 ==> r@ is None,
            trim_of(raw@).len() != 0 ==> r@ == Some(lower_of(trim_of(raw@))),
    {
        let trimmed = trim_str(raw);
        if trimmed.unicode_len() == 0 {
            SearchFilter { needle: None }
        } else {
            SearchFilter { needle: Some(lowercase_str(trimmed)) }
        }
    }

    /// Whether any of the given fields contains the needle, comparing in
    /// lower case.
    pub fn matches_any(&self, fields: &[&str]) -> (r: bool)
        ensures
            r == match self@ {
                None => true,
                Some(needle) => any_field_matches(fields@, needle),
            },
    {
        match self.needle {
            None => true,
            Some(ref needle) => {
                let n = fields.len();
                let mut i: usize = 0;
                while i < n
                    invariant
                        self.needle == Some(*needle),
                        n == fields@.len(),
                        0 <= i <= n,
                        forall|j: int|
                            0 <= j < i ==> !has_substring(
                                lower_of(#[trigger] fields@[j]@),
                                needle@,
                            ),
                    decreases n - i,
                {
                    let field: &&str = slice_index_get(fields, i);
                    let low = lowercase_str(*field);
                    if str_contains(low.as_str(), needle.as_str()) {
                        proof {
                            assert(has_substring(lower_of(fields@[i as int]@), needle@));
                            assert(any_field_matches(fields@, needle@));
                        }
                        return true;
                    }
                    i += 1;
                }
                false
            },
        }
    }
}

} // verus!
