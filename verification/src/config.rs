//! User preferences: wrapping width and the file suffixes to look for.

use vstd::prelude::*;
use vstd::string::*;

verus! {

/// User preferences, with defaults for what a configuration file leaves out.
pub struct Config {
    /// Maximum line width for editor text wrapping.
    pub wrap_width: usize,
    /// File suffixes to match when scanning directories.
    pub file_extensions: Vec<String>,
}

impl Default for Config {
    /// A width of 100 columns and the single suffix `md`.
    fn default() -> (r: Self)
        ensures
            r.wrap_width == 100,
            r.file_extensions@.len() == 1,
            r.file_extensions@[0]@ == "md"@,
    {
        let mut file_extensions: Vec<String> = Vec::new();
        file_extensions.push(String::from_str("md"));
        Config { wrap_width: 100, file_extensions }
    }
}

impl Clone for Config {
    /// A copy with the same width and the same suffixes.
    fn clone(&self) -> (r: Self)
        ensures
            r.wrap_width == self.wrap_width,
            r.file_extensions@.len() == self.file_extensions@.len(),
            forall|i: int|
                0 <= i < r.file_extensions@.len() ==> r.file_extensions@[i]@
                    == self.file_extensions@[i]@,
    {
        let mut file_extensions: Vec<String> = Vec::new();
        let mut i: usize = 0;
        while i < self.file_extensions.len()
            invariant
                i <= self.file_extensions.len(),
                file_extensions@.len() == i,
                forall|k: int|
                    0 <= k < i ==> file_extensions@[k]@ == self.file_extensions@[k]@,
            decreases self.file_extensions.len() - i,
        {
            file_extensions.push(self.file_extensions[i].clone());
            i += 1;
        }
        Config { wrap_width: self.wrap_width, file_extensions }
    }
}

impl Config {
    /// Replaces the configured suffixes by `extensions`, unless that list
    /// is empty: suffixes given on the command line win over configured
    /// ones, and giving none leaves the configuration as it is.
    pub fn override_extensions(&mut self, extensions: Vec<String>)
        ensures
            final(self).wrap_width == old(self).wrap_width,
            final(self).file_extensions == if extensions@.len() == 0 {
                old(self).file_extensions
            } else {
                extensions
            },
    {
        if extensions.len() > 0 {
            self.file_extensions = extensions;
        }
    }
}

} // verus!
