//! What the transfer of templates and outputs to and from object storage
//! decides: the names of the objects, and when to try again.

use vstd::prelude::*;
use vstd::string::StringExecFns;
use crate::error::CliError;
use crate::text::{chars_of, has_prefix, slice_of, starts_with, string_of};

verus! {

/// The text without the slashes at its end.
pub open spec fn without_trailing_slashes(text: Seq<char>) -> Seq<char>
    decreases text.len(),
{
    if text.len() > 0 && text.last() == '/' {
        without_trailing_slashes(text.drop_last())
    } else {
        text
    }
}

/// The key under which a file is stored: its name, after the prefix and
/// a slash where there is a prefix.
pub open spec fn object_key(prefix: Seq<char>, file_name: Seq<char>) -> Seq<char> {
    if prefix.len() == 0 {
        file_name
    } else {
        without_trailing_slashes(prefix) + "/"@ + file_name
    }
}

/// The key under which a file is stored.
pub fn upload_key(prefix: &str, file_name: &str) -> (r: String)
    ensures
        r@ == object_key(prefix@, file_name@),
{
    if prefix.is_empty() {
        return String::from_str(file_name);
    }
    let chars = chars_of(prefix);
    let mut end: usize = chars.len();
    assert(chars@.take(end as int) =~= chars@);
    while end > 0 && chars[end - 1] == '/'
        invariant
            end <= chars.len(),
            without_trailing_slashes(chars@) == without_trailing_slashes(chars@.take(end as int)),
        decreases end,
    {
        assert(chars@.take(end as int).drop_last() =~= chars@.take(end - 1));
        end -= 1;
    }
    let kept = slice_of(&chars, 0, end);
    assert(kept@ =~= chars@.take(end as int));
    let mut r = string_of(&kept);
    r.append("/");
    r.append(file_name);
    r
}

/// Where an object is stored below the local directory: nowhere for a
/// key that ends in a slash, which stands for a directory; else the key
/// without the prefix, or the whole key where it does not start with the
/// prefix.
pub open spec fn local_name(key: Seq<char>, prefix: Seq<char>) -> Option<Seq<char>> {
    if key.len() > 0 && key.last() == '/' {
        None
    } else if starts_with(key, prefix) {
        Some(key.skip(prefix.len() as int))
    } else {
        Some(key)
    }
}

/// Where an object is stored below the local directory.
pub fn download_name(key: &str, prefix: &str) -> (r: Option<String>)
    ensures
        match r {
            Some(name) => local_name(key@, prefix@) == Some(name@),
            None => local_name(key@, prefix@) is None,
        },
{
    let k = chars_of(key);
    let p = chars_of(prefix);
    if k.len() > 0 && k[k.len() - 1] == '/' {
        None
    } else if has_prefix(&k, &p) {
        let rest = slice_of(&k, p.len(), k.len());
        assert(rest@ =~= key@.skip(prefix@.len() as int));
        Some(string_of(&rest))
    } else {
        Some(String::from_str(key))
    }
}

/// The error for an upload without a bucket to upload to.
pub fn missing_outputs_bucket() -> (r: CliError)
    ensures
        r matches CliError::ConfigError(m) && m@ == "Outputs bucket not configured"@,
{
    CliError::ConfigError(String::from_str("Outputs bucket not configured"))
}

/// How often an operation has failed, and how long to wait before it is
/// tried again.
#[derive(Debug, Clone, Copy, PartialEq, Eq, Structural)]
pub struct Backoff {
    pub retries: u32,
    pub delay_ms: u64,
}

impl Backoff {
    /// Before the first try: no failure yet, and a tenth of a second to
    /// wait after the first.
    pub fn new() -> (r: Backoff)
        ensures
            r == (Backoff { retries: 0, delay_ms: 100 }),
    {
        Backoff { retries: 0, delay_ms: 100 }
    }

    /// After a failure: how many milliseconds to wait before the next
    /// try, or nothing where the operation has been tried again
    /// `max_retries` times and is given up. The wait doubles each time,
    /// up to the largest number of milliseconds there is.
    pub fn after_failure(&mut self, max_retries: u32) -> (wait: Option<u64>)
        ensures
            old(self).retries >= max_retries ==> wait is None && *final(self) == *old(self),
            old(self).retries < max_retries ==> wait == Some(old(self).delay_ms),
            old(self).retries < max_retries ==> final(self).retries == old(self).retries + 1,
            old(self).retries < max_retries ==> final(self).delay_ms == (if old(self).delay_ms
                * 2 <= u64::MAX {
                (old(self).delay_ms * 2) as u64
            } else {
                u64::MAX
            }),
    {
        if self.retries >= max_retries {
            return None;
        }
        let wait = self.delay_ms;
        self.retries = self.retries + 1;
        self.delay_ms = if self.delay_ms <= u64::MAX / 2 {
            self.delay_ms * 2
        } else {
            u64::MAX
        };
        Some(wait)
    }
}

} // verus!
