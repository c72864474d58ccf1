//! Picks the decompression transform for a source from the suffix of its name.
use vstd::prelude::*;
use vstd::string::*;

verus! {

/// The transform applied to a fetched buffer before its records are decoded.
#[derive(Clone, Copy, Debug, PartialEq, Eq, Structural)]
pub enum Compression {
    /// Passed through as it is.
    Identity,
    /// A gzip (DEFLATE) stream.
    Gzip,
    /// A bzip2 stream.
    Bzip2,
    /// An LZ4 frame stream.
    Lz4,
}

/// Whether `s` ends with `suffix`.
pub open spec fn has_suffix(s: Seq<char>, suffix: Seq<char>) -> bool {
    suffix.len() <= s.len() && s.subrange(s.len() - suffix.len(), s.len() as int) == suffix
}

/// The transform for a name, by its suffix; unknown suffixes pass through.
pub open spec fn compression_spec(name: Seq<char>) -> Compression {
    if has_suffix(name, seq!['.', 'g', 'z']) || has_suffix(name, seq!['.', 'g', 'z', 'i', 'p']) {
        Compression::Gzip
    } else if has_suffix(name, seq!['.', 'b', 'z', '2']) || has_suffix(name, seq!['.', 'b', 'z']) {
        Compression::Bzip2
    } else if has_suffix(name, seq!['.', 'l', 'z', '4']) || has_suffix(name, seq!['.', 'l', 'z']) {
        Compression::Lz4
    } else {
        Compression::Identity
    }
}

/// Whether `s` ends with `suffix`, compared character by character.
pub fn ends_with(s: &str, suffix: &str) -> (r: bool)
    ensures
        r == has_suffix(s@, suffix@),
{
    let n = s.unicode_len();
    let m = suffix.unicode_len();
    if m > n {
        return false;
    }
    let offset = n - m;
    let mut i: usize = 0;
    while i < m
        invariant
            n == s@.len(),
            m == suffix@.len(),
            m <= n,
            offset == n - m,
            i <= m,
            forall|j: int| 0 <= j < i ==> s@[offset + j] == suffix@[j],
        decreases m - i,
    {
        if s.get_char(offset + i) != suffix.get_char(i) {
            assert(s@.subrange(offset as int, n as int)[i as int] != suffix@[i as int]);
            return false;
        }
        i = i + 1;
    }
    assert(s@.subrange(offset as int, n as int) =~= suffix@);
    true
}

/// The transform for a source's name or URL.
pub fn compression_for(name: &str) -> (r: Compression)
    ensures
        r == compression_spec(name@),
{
    proof {
        reveal_strlit(".gz");
        reveal_strlit(".gzip");
        reveal_strlit(".bz2");
        reveal_strlit(".bz");
        reveal_strlit(".lz4");
        reveal_strlit(".lz");
        assert(".gz"@ =~= seq!['.', 'g', 'z']);
        assert(".gzip"@ =~= seq!['.', 'g', 'z', 'i', 'p']);
        assert(".bz2"@ =~= seq!['.', 'b', 'z', '2']);
        assert(".bz"@ =~= seq!['.', 'b', 'z']);
        assert(".lz4"@ =~= seq!['.', 'l', 'z', '4']);
        assert(".lz"@ =~= seq!['.', 'l', 'z']);
    }
    if ends_with(name, ".gz") || ends_with(name, ".gzip") {
        Compression::Gzip
    } else if ends_with(name, ".bz2") || ends_with(name, ".bz") {
        Compression::Bzip2
    } else if ends_with(name, ".lz4") || ends_with(name, ".lz") {
        Compression::Lz4
    } else {
        Compression::Identity
    }
}

} // verus!
