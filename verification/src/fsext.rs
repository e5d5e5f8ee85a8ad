//! File-name patterns: the rule that decides which directory entries count as
//! configuration fragments.

use vstd::prelude::*;

verus! {

/// Lexicographic order on byte sequences: the sort key for canonical fragment
/// paths.
pub open spec fn bytes_le(a: Seq<u8>, b: Seq<u8>) -> bool
    decreases a.len(),
{
    if a.len() == 0 {
        true
    } else if b.len() == 0 {
        false
    } else if a[0] < b[0] {
        true
    } else if a[0] > b[0] {
        false
    } else {
        bytes_le(a.drop_first(), b.drop_first())
    }
}

/// The byte order is total: any two byte sequences are comparable.
pub proof fn lemma_bytes_le_total(a: Seq<u8>, b: Seq<u8>)
    ensures
        bytes_le(a, b) || bytes_le(b, a),
    decreases a.len(),
{
    if a.len() == 0 || b.len() == 0 {
    } else if a[0] == b[0] {
        lemma_bytes_le_total(a.drop_first(), b.drop_first());
    }
}

/// The byte order is antisymmetric: mutually ordered sequences are equal.
pub proof fn lemma_bytes_le_antisymmetric(a: Seq<u8>, b: Seq<u8>)
    requires
        bytes_le(a, b),
        bytes_le(b, a),
    ensures
        a == b,
    decreases a.len(),
{
    if a.len() == 0 {
        assert(b.len() == 0);
        assert(a =~= b);
    } else {
        assert(b.len() > 0);
        assert(a[0] == b[0]);
        lemma_bytes_le_antisymmetric(a.drop_first(), b.drop_first());
        assert(a =~= seq![a[0]] + a.drop_first());
        assert(b =~= seq![b[0]] + b.drop_first());
    }
}

/// The byte order is transitive.
pub proof fn lemma_bytes_le_transitive(a: Seq<u8>, b: Seq<u8>, c: Seq<u8>)
    requires
        bytes_le(a, b),
        bytes_le(b, c),
    ensures
        bytes_le(a, c),
    decreases a.len(),
{
    if a.len() == 0 || b.len() == 0 || c.len() == 0 {
    } else if a[0] == b[0] && b[0] == c[0] {
        lemma_bytes_le_transitive(a.drop_first(), b.drop_first(), c.drop_first());
    }
}

/// Compares two byte vectors in the lexicographic order.
pub fn le_bytes(a: &Vec<u8>, b: &Vec<u8>) -> (r: bool)
    ensures
        r == bytes_le(a@, b@),
{
    let mut i: usize = 0;
    proof {
        assert(a@.skip(0) =~= a@);
        assert(b@.skip(0) =~= b@);
    }
    loop
        invariant
            i <= a@.len(),
            i <= b@.len(),
            bytes_le(a@, b@) == bytes_le(a@.skip(i as int), b@.skip(i as int)),
        decreases a@.len() - i,
    {
        if i >= a.len() {
            proof {
                assert(a@.skip(i as int) =~= Seq::<u8>::empty());
            }
            return true;
        }
        if i >= b.len() {
            proof {
                assert(b@.skip(i as int) =~= Seq::<u8>::empty());
                assert(a@.skip(i as int).len() > 0);
            }
            return false;
        }
        let x = a[i];
        let y = b[i];
        proof {
            assert(a@.skip(i as int)[0] == a@[i as int]);
            assert(b@.skip(i as int)[0] == b@[i as int]);
        }
        if x < y {
            return true;
        }
        if x > y {
            return false;
        }
        proof {
            assert(a@.skip(i as int).drop_first() =~= a@.skip(i as int + 1));
            assert(b@.skip(i as int).drop_first() =~= b@.skip(i as int + 1));
        }
        i = i + 1;
    }
}

/// A predicate over a file name given as raw bytes.
pub trait FilePattern: Sized {
    /// What the pattern accepts, as a mathematical predicate.
    spec fn spec_matches(&self, data: Seq<u8>) -> bool;

    /// Tests whether `data` matches the pattern.
    fn matches(&self, data: &[u8]) -> (r: bool)
        ensures
            r == self.spec_matches(data@),
    ;
}

/// `ext` is a suffix of `data`.
pub open spec fn is_suffix_of(ext: Seq<u8>, data: Seq<u8>) -> bool {
    &&& data.len() >= ext.len()
    &&& data.subrange(data.len() - ext.len(), data.len() as int) == ext
}

/// A pattern that matches files whose name ends with a fixed extension.
#[derive(Debug, Clone)]
pub struct FileExtensionPattern {
    /// The file extension to match.
    extension: Vec<u8>,
}

impl FileExtensionPattern {
    /// Creates a new file extension pattern.
    pub fn new(extension: Vec<u8>) -> (r: Self)
        ensures
            r.spec_extension() == extension@,
    {
        FileExtensionPattern { extension }
    }

    /// The extension this pattern tests for.
    pub closed spec fn spec_extension(&self) -> Seq<u8> {
        self.extension@
    }
}

impl FilePattern for FileExtensionPattern {
    open spec fn spec_matches(&self, data: Seq<u8>) -> bool {
        is_suffix_of(self.spec_extension(), data)
    }

    fn matches(&self, data: &[u8]) -> (r: bool) {
        let n = data.len();
        let k = self.extension.len();
        if n < k {
            return false;
        }
        let mut i: usize = 0;
        while i < k
            invariant
                i <= k,
                k <= n,
                n == data@.len(),
                k == self.extension@.len(),
                forall|j: int| 0 <= j < i ==> data@[n - k + j] == self.extension@[j],
            decreases k - i,
        {
            if data[n - k + i] != self.extension[i] {
                assert(data@.subrange(n - k, n as int)[i as int] != self.extension@[i as int]);
                return false;
            }
            i = i + 1;
        }
        assert(data@.subrange(n - k, n as int) =~= self.extension@);
        true
    }
}

} // verus!
