//! The directory-change source: the content digest over the matching
//! fragments and the per-tick change decision.

use vstd::prelude::*;
use sha2::Digest;
use crate::events::{EventSource, TickAction};
use crate::fsext::FilePattern;
use crate::config::{
    Fragment, FragmentModel, frags_view, distinct_paths, sort_frags, concat_parts,
    sort_fragments, lemma_sort_frags_order_independent, lemma_concat_parts_insert_skipped,
};

verus! {

/// The SHA-512 digest of a byte sequence, named: it depends on the input
/// bytes alone.
pub uninterp spec fn sha512_of(data: Seq<u8>) -> Seq<u8>;

/// Relies on sha2::Sha512 through digest::Digest::digest: the digest is
/// computed from the input bytes alone, and SHA-512 output is 64 bytes.
#[verifier::external_body]
fn sha512(data: &[u8]) -> (r: Vec<u8>)
    ensures
        r@ == sha512_of(data@),
        r@.len() == 64,
{
    sha2::Sha512::digest(data).to_vec()
}

/// The big-endian bytes of a 64-bit length, as the digest input frames them.
pub open spec fn be8(n: u64) -> Seq<u8> {
    seq![
        ((n >> 56) & 0xff) as u8,
        ((n >> 48) & 0xff) as u8,
        ((n >> 40) & 0xff) as u8,
        ((n >> 32) & 0xff) as u8,
        ((n >> 24) & 0xff) as u8,
        ((n >> 16) & 0xff) as u8,
        ((n >> 8) & 0xff) as u8,
        (n & 0xff) as u8,
    ]
}

/// Builds the big-endian bytes of a 64-bit length.
fn u64_be_bytes(n: u64) -> (r: Vec<u8>)
    ensures
        r@ == be8(n),
{
    let mut r: Vec<u8> = Vec::new();
    r.push(((n >> 56) & 0xff) as u8);
    r.push(((n >> 48) & 0xff) as u8);
    r.push(((n >> 40) & 0xff) as u8);
    r.push(((n >> 32) & 0xff) as u8);
    r.push(((n >> 24) & 0xff) as u8);
    r.push(((n >> 16) & 0xff) as u8);
    r.push(((n >> 8) & 0xff) as u8);
    r.push((n & 0xff) as u8);
    proof {
        assert(r@ =~= be8(n));
    }
    r
}

/// What one fragment contributes to the digest input: its path bytes, the
/// path length, its content and the content length — if its name matches the
/// pattern; nothing otherwise.
pub open spec fn digest_part<P: FilePattern>(p: P, f: FragmentModel) -> Seq<u8> {
    if p.spec_matches(f.name) {
        f.path + be8(f.path.len() as u64) + f.data + be8(f.data.len() as u64)
    } else {
        Seq::empty()
    }
}

/// The digest input of a fragment snapshot: the matching fragments' framed
/// paths and contents, in ascending canonical-path order.
pub open spec fn spec_digest_input<P: FilePattern>(p: P, s: Seq<FragmentModel>) -> Seq<u8> {
    concat_parts(|f: FragmentModel| digest_part(p, f), sort_frags(s))
}

/// The content digest of a fragment snapshot: what the directory poller
/// compares between ticks. Purely a function of the matching fragments'
/// paths and contents — independent of listing order and of modification
/// times.
pub open spec fn spec_dirhash<P: FilePattern>(p: P, s: Seq<FragmentModel>) -> Seq<u8> {
    sha512_of(spec_digest_input(p, s))
}

/// Law: two snapshots with the same fragments — however the directory was
/// listed — have the same digest, so a poll over an unchanged directory
/// emits no event.
pub proof fn lemma_unchanged_digest<P: FilePattern>(
    p: P,
    s1: Seq<FragmentModel>,
    s2: Seq<FragmentModel>,
)
    requires
        s1.to_multiset() == s2.to_multiset(),
        distinct_paths(s1),
    ensures
        spec_dirhash(p, s1) == spec_dirhash(p, s2),
{
    lemma_sort_frags_order_independent(s1, s2);
}

/// Law: a fragment whose name does not match the pattern never enters the
/// change-detection digest, whatever its content.
pub proof fn lemma_digest_ignores_nonmatching<P: FilePattern>(
    p: P,
    s: Seq<FragmentModel>,
    x: FragmentModel,
)
    requires
        !p.spec_matches(x.name),
    ensures
        spec_dirhash(p, s.push(x)) == spec_dirhash(p, s),
{
    assert(s.push(x).drop_last() =~= s);
    assert(s.push(x).last() == x);
    assert(sort_frags(s.push(x)) == crate::config::insert_frag(x, sort_frags(s)));
    lemma_concat_parts_insert_skipped(|f: FragmentModel| digest_part(p, f), x, sort_frags(s));
}

/// Computes the content digest over a snapshot of the fragment directory.
pub fn dirhash<P: FilePattern>(pattern: &P, fragments: Vec<Fragment>) -> (r: Vec<u8>)
    ensures
        r@ == spec_dirhash(*pattern, frags_view(fragments@)),
        r@.len() == 64,
{
    let ghost p = *pattern;
    let sorted = sort_fragments(fragments);
    let mut rest = sorted;
    let mut input: Vec<u8> = Vec::new();
    proof {
        assert(input@ + concat_parts(|f: FragmentModel| digest_part(p, f), frags_view(rest@))
            =~= spec_digest_input(p, frags_view(fragments@)));
    }
    while rest.len() > 0
        invariant
            spec_digest_input(p, frags_view(fragments@)) == input@ + concat_parts(
                |f: FragmentModel| digest_part(p, f),
                frags_view(rest@),
            ),
            *pattern == p,
        decreases rest@.len(),
    {
        let ghost pre = frags_view(rest@);
        let f = rest.remove(0);
        proof {
            assert(f@ == pre[0]);
            assert(frags_view(rest@) =~= pre.drop_first());
        }
        let ghost in0 = input@;
        let matched = pattern.matches(f.name.as_slice());
        if matched {
            let path_len = f.path.len() as u64;
            let data_len = f.data.len() as u64;
            let mut pb = f.path;
            input.append(&mut pb);
            let mut pl = u64_be_bytes(path_len);
            input.append(&mut pl);
            let mut db = f.data;
            input.append(&mut db);
            let mut dl = u64_be_bytes(data_len);
            input.append(&mut dl);
        }
        proof {
            assert(input@ =~= in0 + digest_part(p, pre[0]));
            assert(concat_parts(|f: FragmentModel| digest_part(p, f), pre) == digest_part(
                p,
                pre[0],
            ) + concat_parts(|f: FragmentModel| digest_part(p, f), pre.drop_first()));
            assert(in0 + (digest_part(p, pre[0]) + concat_parts(
                |f: FragmentModel| digest_part(p, f),
                frags_view(rest@),
            )) =~= (in0 + digest_part(p, pre[0])) + concat_parts(
                |f: FragmentModel| digest_part(p, f),
                frags_view(rest@),
            ));
        }
    }
    proof {
        assert(frags_view(rest@) =~= Seq::<FragmentModel>::empty());
        assert(input@ + concat_parts(|f: FragmentModel| digest_part(p, f), frags_view(rest@))
            =~= input@);
    }
    sha512(input.as_slice())
}

/// Tests two byte vectors for equality.
pub fn bytes_equal(a: &Vec<u8>, b: &Vec<u8>) -> (r: bool)
    ensures
        r == (a@ == b@),
{
    if a.len() != b.len() {
        return false;
    }
    let mut i: usize = 0;
    while i < a.len()
        invariant
            i <= a@.len(),
            a@.len() == b@.len(),
            forall|j: int| 0 <= j < i ==> a@[j] == b@[j],
        decreases a@.len() - i,
    {
        if a[i] != b[i] {
            return false;
        }
        i = i + 1;
    }
    proof {
        assert(a@ =~= b@);
    }
    true
}

/// The state the directory poller carries between ticks: the digest of the
/// previous poll. The initial digest is computed before the polling loop
/// starts, so the first emission requires an actual change after startup,
/// not the mere presence of files.
pub struct DirectoryPoller<P> {
    /// The fragment pattern.
    pattern: P,
    /// The digest observed by the previous poll.
    last: Vec<u8>,
}

impl<P: FilePattern> DirectoryPoller<P> {
    /// The fragment pattern.
    pub closed spec fn spec_pattern(&self) -> P {
        self.pattern
    }

    /// The digest of the previous poll.
    pub closed spec fn spec_last(&self) -> Seq<u8> {
        self.last@
    }

    /// Starts a poller from the initial snapshot of the directory.
    pub fn new(pattern: P, initial: Vec<Fragment>) -> (r: Self)
        ensures
            r.spec_pattern() == pattern,
            r.spec_last() == spec_dirhash(pattern, frags_view(initial@)),
    {
        let last = dirhash(&pattern, initial);
        DirectoryPoller { pattern, last }
    }

    /// One polling tick: stop if cancelled; otherwise emit exactly when the
    /// snapshot's digest differs from the previous poll's, and remember the
    /// new digest. Change detection is level-triggered against the previous
    /// poll alone, never against a baseline.
    pub fn tick(&mut self, active: bool, fragments: Vec<Fragment>) -> (r: TickAction)
        ensures
            final(self).spec_pattern() == old(self).spec_pattern(),
            !active ==> r == TickAction::Stop && final(self).spec_last() == old(
                self,
            ).spec_last(),
            active ==> {
                let d = spec_dirhash(old(self).spec_pattern(), frags_view(fragments@));
                &&& final(self).spec_last() == d
                &&& r == (if d != old(self).spec_last() {
                    TickAction::Emit
                } else {
                    TickAction::Idle
                })
            },
    {
        if !active {
            return TickAction::Stop;
        }
        let d = dirhash(&self.pattern, fragments);
        let same = bytes_equal(&d, &self.last);
        self.last = d;
        if same {
            TickAction::Idle
        } else {
            TickAction::Emit
        }
    }
}

/// A directory monitor event source. The 1.5 s polling thread lives outside
/// the library; here stand the watched directory, the pattern and the
/// cancellation state.
pub struct DirectoryEventSource<P> {
    /// The directory to monitor.
    directory: String,
    /// The file pattern to match.
    pattern: P,
    /// Whether the flag currently shared with the poller is active.
    active: bool,
}

impl<P: FilePattern> DirectoryEventSource<P> {
    /// The watched directory.
    pub closed spec fn spec_directory(&self) -> Seq<char> {
        self.directory@
    }

    /// The pattern matching the fragment files.
    pub closed spec fn spec_pattern(&self) -> P {
        self.pattern
    }

    /// Creates a new monitor for a given directory, with an active flag.
    pub fn new(directory: String, pattern: P) -> (r: Self)
        ensures
            r.spec_directory() == directory@,
            r.spec_pattern() == pattern,
            r.spec_active(),
    {
        DirectoryEventSource { directory, pattern, active: true }
    }

    /// The directory a poller of this source must list on each tick.
    pub fn directory(&self) -> (r: &String)
        ensures
            r@ == self.spec_directory(),
    {
        &self.directory
    }

    /// The pattern a poller of this source must filter with.
    pub fn pattern(&self) -> (r: &P)
        ensures
            *r == self.spec_pattern(),
    {
        &self.pattern
    }
}

impl<P: FilePattern> EventSource for DirectoryEventSource<P> {
    closed spec fn spec_active(&self) -> bool {
        self.active
    }

    fn event_attach(&mut self) {
        self.active = true;
    }

    fn event_cancel(&mut self) {
        self.active = false;
    }

    fn event_detach(&mut self) {
        self.active = true;
    }
}

} // verus!
