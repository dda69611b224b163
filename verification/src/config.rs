//! Resource bounds that the decoder enforces on sizes read from the input.
use vstd::prelude::*;

verus! {

/// The bounds of a [`Config`] as plain values.
pub struct ConfigView {
    pub max_suffix_len: u64,
    pub max_string_len: u64,
    pub max_compressed_size: u64,
    pub max_uncompressed_size: u64,
    pub max_array_size: u64,
    pub max_hash_size: u64,
    pub max_depth: u64,
}

/// The bounds that [`Config::default`] sets.
pub open spec fn default_bounds() -> ConfigView {
    ConfigView {
        max_suffix_len: 1_000_000,
        max_string_len: 1_000_000,
        max_compressed_size: 100_000_000,
        max_uncompressed_size: 100_000_000,
        max_array_size: 1_000_000,
        max_hash_size: 1_000_000,
        max_depth: 1_000,
    }
}

/// Limits on the sizes that a document may announce. Each is checked against the
/// decoded size before anything of that size is allocated or sliced.
#[derive(Clone, Copy, Debug)]
pub struct Config {
    max_suffix_len: u64,
    max_string_len: u64,
    max_compressed_size: u64,
    max_uncompressed_size: u64,
    max_array_size: u64,
    max_hash_size: u64,
    max_depth: u64,
}

impl View for Config {
    type V = ConfigView;

    closed spec fn view(&self) -> ConfigView {
        ConfigView {
            max_suffix_len: self.max_suffix_len,
            max_string_len: self.max_string_len,
            max_compressed_size: self.max_compressed_size,
            max_uncompressed_size: self.max_uncompressed_size,
            max_array_size: self.max_array_size,
            max_hash_size: self.max_hash_size,
            max_depth: self.max_depth,
        }
    }
}

impl Default for Config {
    fn default() -> (c: Config)
        ensures
            c@ == default_bounds(),
    {
        Config::default()
    }
}

impl Config {
    pub fn default() -> (c: Config)
        ensures
            c@ == default_bounds(),
    {
        Config {
            max_suffix_len: 1_000_000,
            max_string_len: 1_000_000,
            max_compressed_size: 100_000_000,
            max_uncompressed_size: 100_000_000,
            max_array_size: 1_000_000,
            max_hash_size: 1_000_000,
            max_depth: 1_000,
        }
    }

    /// Largest accepted length of the header suffix, in bytes.
    pub fn max_suffix_len(&self) -> (n: u64)
        ensures
            n == self@.max_suffix_len,
    {
        self.max_suffix_len
    }

    pub fn with_max_suffix_len(self, new_max: u64) -> (c: Config)
        ensures
            c@ == (ConfigView { max_suffix_len: new_max, ..self@ }),
    {
        Config { max_suffix_len: new_max, ..self }
    }

    /// Largest accepted length of a byte string in the body.
    pub fn max_string_len(&self) -> (n: u64)
        ensures
            n == self@.max_string_len,
    {
        self.max_string_len
    }

    pub fn with_max_string_len(self, new_max: u64) -> (c: Config)
        ensures
            c@ == (ConfigView { max_string_len: new_max, ..self@ }),
    {
        Config { max_string_len: new_max, ..self }
    }

    /// Largest accepted size of a compressed body.
    pub fn max_compressed_size(&self) -> (n: u64)
        ensures
            n == self@.max_compressed_size,
    {
        self.max_compressed_size
    }

    pub fn with_max_compressed_size(self, new_max: u64) -> (c: Config)
        ensures
            c@ == (ConfigView { max_compressed_size: new_max, ..self@ }),
    {
        Config { max_compressed_size: new_max, ..self }
    }

    /// Largest accepted size that a compressed body may announce for its contents.
    pub fn max_uncompressed_size(&self) -> (n: u64)
        ensures
            n == self@.max_uncompressed_size,
    {
        self.max_uncompressed_size
    }

    pub fn with_max_uncompressed_size(self, new_max: u64) -> (c: Config)
        ensures
            c@ == (ConfigView { max_uncompressed_size: new_max, ..self@ }),
    {
        Config { max_uncompressed_size: new_max, ..self }
    }

    /// Largest accepted number of items of one array.
    pub fn max_array_size(&self) -> (n: u64)
        ensures
            n == self@.max_array_size,
    {
        self.max_array_size
    }

    pub fn with_max_array_size(self, new_max: u64) -> (c: Config)
        ensures
            c@ == (ConfigView { max_array_size: new_max, ..self@ }),
    {
        Config { max_array_size: new_max, ..self }
    }

    /// Largest accepted number of entries of one hash.
    pub fn max_hash_size(&self) -> (n: u64)
        ensures
            n == self@.max_hash_size,
    {
        self.max_hash_size
    }

    pub fn with_max_hash_size(self, new_max: u64) -> (c: Config)
        ensures
            c@ == (ConfigView { max_hash_size: new_max, ..self@ }),
    {
        Config { max_hash_size: new_max, ..self }
    }

    /// Largest accepted nesting of values, which bounds the parser's recursion.
    pub fn max_depth(&self) -> (n: u64)
        ensures
            n == self@.max_depth,
    {
        self.max_depth
    }

    pub fn with_max_depth(self, new_max: u64) -> (c: Config)
        ensures
            c@ == (ConfigView { max_depth: new_max, ..self@ }),
    {
        Config { max_depth: new_max, ..self }
    }
}

} // verus!
