//! Content hashes, fingerprints and the byte-by-byte comparison of files.
//!
//! Reading files is the caller's part: it hands over what it has read, piece by piece.
use vstd::prelude::*;
use vstd::slice::*;
use vstd::string::*;
use xxhash_rust::xxh3::Xxh3;

use crate::model::SAMPLE_FINGERPRINT_BYTES;
use crate::number::{digits, hex_text, lemma_digits_worth, number_worth};

verus! {

/// The streaming hasher of the `xxhash_rust` crate.
#[verifier::external_type_specification]
#[verifier::external_body]
pub struct ExXxh3(Xxh3);

/// The bytes that a hasher has been given so far, in order.
pub uninterp spec fn absorbed(hasher: Xxh3) -> Seq<u8>;

/// Whether a hasher works with the default seed and secret.
pub uninterp spec fn is_default(hasher: Xxh3) -> bool;

/// The 64-bit XXH3 digest, with the default seed and secret, of a sequence of bytes.
pub uninterp spec fn xxh3_digest(data: Seq<u8>) -> u64;

/// `Xxh3::new` makes a hasher with the default seed and secret that has been given nothing.
pub assume_specification[ Xxh3::new ]() -> (hasher: Xxh3)
    ensures
        absorbed(hasher) == Seq::<u8>::empty(),
        is_default(hasher),
;

/// `Xxh3::update` gives the hasher further bytes. Seed and secret stay.
pub assume_specification[ Xxh3::update ](hasher: &mut Xxh3, input: &[u8])
    ensures
        absorbed(*final(hasher)) == absorbed(*old(hasher)) + input@,
        is_default(*final(hasher)) == is_default(*old(hasher)),
;

/// `Xxh3::digest` computes the digest of the bytes given so far. With the default seed and
/// secret it depends on those bytes alone, not on the pieces in which they came.
pub assume_specification[ Xxh3::digest ](hasher: &Xxh3) -> (digest: u64)
    requires
        is_default(*hasher),
    ensures
        digest == xxh3_digest(absorbed(*hasher)),
;

// ---------------------------------------------------------------------------
// Content hash
// ---------------------------------------------------------------------------

/// The hash of some contents, as it stands in the reports: the digest in hexadecimal.
pub open spec fn content_hash(contents: Seq<u8>) -> Seq<char> {
    digits(xxh3_digest(contents) as nat, 16)
}

/// Hashes the contents of a file as they are read.
pub struct ContentHasher {
    state: Xxh3,
}

impl ContentHasher {
    #[verifier::type_invariant]
    spec fn uses_defaults(self) -> bool {
        is_default(self.state)
    }

    /// What has been read so far.
    pub closed spec fn contents(&self) -> Seq<u8> {
        absorbed(self.state)
    }

    /// Nothing has been read.
    pub fn new() -> (r: ContentHasher)
        ensures
            r.contents() == Seq::<u8>::empty(),
    {
        ContentHasher { state: Xxh3::new() }
    }

    /// Takes the next bytes.
    pub fn feed(&mut self, chunk: &[u8])
        ensures
            final(self).contents() == old(self).contents() + chunk@,
    {
        proof {
            use_type_invariant(&*self);
        }
        let mut state = Xxh3::new();
        std::mem::swap(&mut state, &mut self.state);
        state.update(chunk);
        self.state = state;
    }

    /// The hash of what has been read.
    pub fn finish(&self) -> (r: String)
        ensures
            r@ == content_hash(self.contents()),
    {
        proof {
            use_type_invariant(self);
        }
        hex_text(self.state.digest())
    }
}

/// A content hash is never empty, so a hashed file is told from an unhashed one.
pub proof fn law_content_hash_is_not_empty(contents: Seq<u8>)
    ensures
        content_hash(contents).len() > 0,
{
    lemma_digits_worth(xxh3_digest(contents) as nat, 16);
}

// ---------------------------------------------------------------------------
// Fingerprint
// ---------------------------------------------------------------------------

/// Which bytes of a file its fingerprint is taken from: `first` bytes at its start, then
/// `last` bytes at its end.
#[derive(Debug, Clone, Copy, PartialEq, Eq, Structural)]
pub struct SamplePlan {
    pub first: usize,
    pub last: usize,
}

/// The sample of a file of the given size.
pub open spec fn sample_of_size(file_size: u64) -> SamplePlan {
    if file_size <= 2 * SAMPLE_FINGERPRINT_BYTES {
        SamplePlan {
            first: if file_size < SAMPLE_FINGERPRINT_BYTES {
                file_size as usize
            } else {
                SAMPLE_FINGERPRINT_BYTES
            },
            last: 0,
        }
    } else {
        SamplePlan { first: SAMPLE_FINGERPRINT_BYTES, last: SAMPLE_FINGERPRINT_BYTES }
    }
}

/// The sample of a file of the given size.
pub fn sample_plan(file_size: u64) -> (r: SamplePlan)
    ensures
        r == sample_of_size(file_size),
{
    if file_size <= 2 * SAMPLE_FINGERPRINT_BYTES as u64 {
        let first: usize = if file_size < SAMPLE_FINGERPRINT_BYTES as u64 {
            file_size as usize
        } else {
            SAMPLE_FINGERPRINT_BYTES
        };
        SamplePlan { first, last: 0 }
    } else {
        SamplePlan { first: SAMPLE_FINGERPRINT_BYTES, last: SAMPLE_FINGERPRINT_BYTES }
    }
}

/// The bytes that the fingerprint of a file with these contents is taken from.
pub open spec fn sampled(contents: Seq<u8>) -> Seq<u8> {
    let plan = sample_of_size(contents.len() as u64);
    contents.take(plan.first as int) + contents.skip(contents.len() - plan.last)
}

/// The fingerprint of a file with these contents.
pub open spec fn fingerprint_of(contents: Seq<u8>) -> Seq<char> {
    content_hash(sampled(contents))
}

/// The fingerprint that the bytes at the start and at the end of a file give.
pub fn fingerprint(first: &[u8], last: &[u8]) -> (r: String)
    ensures
        r@ == content_hash(first@ + last@),
        forall|contents: Seq<u8>|
            contents.len() <= u64::MAX && first@ == contents.take(
                sample_of_size(contents.len() as u64).first as int,
            ) && last@ == contents.skip(
                contents.len() - sample_of_size(contents.len() as u64).last,
            ) ==> r@ == #[trigger] fingerprint_of(contents),
{
    let mut hasher = ContentHasher::new();
    hasher.feed(first);
    hasher.feed(last);
    assert(hasher.contents() =~= first@ + last@);
    hasher.finish()
}

/// The sample lies within the file, and it is as long as planned.
pub proof fn law_sample_lies_in_the_file(contents: Seq<u8>)
    requires
        contents.len() <= u64::MAX,
    ensures
        sample_of_size(contents.len() as u64).first <= contents.len(),
        sample_of_size(contents.len() as u64).last <= contents.len(),
        sampled(contents).len() == sample_of_size(contents.len() as u64).first + sample_of_size(
            contents.len() as u64,
        ).last,
{
}

// ---------------------------------------------------------------------------
// Comparison
// ---------------------------------------------------------------------------

/// How far a comparison of two files has come.
#[derive(Debug, Clone, Copy, PartialEq, Eq, Structural)]
pub enum Verdict {
    Undecided,
    Identical,
    Different,
}

/// Compares two files as they are read, side by side.
pub struct FileComparison {
    /// What has been read of the first file.
    pub left: Ghost<Seq<u8>>,
    /// What has been read of the second file.
    pub right: Ghost<Seq<u8>>,
}

/// What the next pieces of two files, equal so far, say. Two empty pieces are the ends
/// of both files.
pub open spec fn verdict_on(left: Seq<u8>, right: Seq<u8>) -> Verdict {
    if left != right {
        Verdict::Different
    } else if left.len() == 0 {
        Verdict::Identical
    } else {
        Verdict::Undecided
    }
}

/// What the sizes of two files say before anything is read of them.
pub open spec fn verdict_on_sizes(left_size: u64, right_size: u64) -> Verdict {
    if left_size != right_size {
        Verdict::Different
    } else {
        Verdict::Undecided
    }
}

impl FileComparison {
    /// Whether nothing read so far tells the files apart.
    pub open spec fn agrees(&self) -> bool {
        self.left@ == self.right@
    }

    /// Starts a comparison of two files of the given sizes. Files of different sizes
    /// need not be read.
    pub fn begin(left_size: u64, right_size: u64) -> (r: (FileComparison, Verdict))
        ensures
            r.0.left@ == Seq::<u8>::empty(),
            r.0.right@ == Seq::<u8>::empty(),
            r.1 == verdict_on_sizes(left_size, right_size),
            r.1 == if left_size != right_size {
                Verdict::Different
            } else {
                Verdict::Undecided
            },
    {
        let comparison = FileComparison { left: Ghost(Seq::empty()), right: Ghost(Seq::empty()) };
        if left_size != right_size {
            (comparison, Verdict::Different)
        } else {
            (comparison, Verdict::Undecided)
        }
    }

    /// Takes the next pieces of the two files.
    pub fn feed(&mut self, left: &[u8], right: &[u8]) -> (r: Verdict)
        requires
            old(self).agrees(),
        ensures
            final(self).left@ == old(self).left@ + left@,
            final(self).right@ == old(self).right@ + right@,
            r == verdict_on(left@, right@),
            r != Verdict::Different ==> final(self).agrees(),
            r == Verdict::Different ==> left@.len() != right@.len() || !final(self).agrees(),
    {
        let ghost before = self.left@;
        self.left = Ghost(self.left@ + left@);
        self.right = Ghost(self.right@ + right@);
        let n: usize = left.len();
        if n != right.len() {
            return Verdict::Different;
        }
        let mut i: usize = 0;
        while i < n
            invariant
                n == left@.len(),
                n == right@.len(),
                i <= n,
                before == old(self).left@,
                before == old(self).right@,
                self.left@ == before + left@,
                self.right@ == before + right@,
                forall|k: int| 0 <= k < i ==> left@[k] == right@[k],
            decreases n - i,
        {
            if left[i] != right[i] {
                proof {
                    assert(self.left@[before.len() + i] == left@[i as int]);
                    assert(self.right@[before.len() + i] == right@[i as int]);
                }
                return Verdict::Different;
            }
            i = i + 1;
        }
        assert(left@ =~= right@);
        if n == 0 {
            Verdict::Identical
        } else {
            Verdict::Undecided
        }
    }
}

/// The verdict on two files that are read in the given pieces.
pub open spec fn verdict_of(pieces: Seq<(Seq<u8>, Seq<u8>)>) -> Verdict
    decreases pieces.len(),
{
    if pieces.len() == 0 {
        Verdict::Undecided
    } else {
        let first = verdict_on(pieces[0].0, pieces[0].1);
        if first == Verdict::Undecided {
            verdict_of(pieces.drop_first())
        } else {
            first
        }
    }
}

/// All that the pieces hold of the first file.
pub open spec fn left_contents(pieces: Seq<(Seq<u8>, Seq<u8>)>) -> Seq<u8>
    decreases pieces.len(),
{
    if pieces.len() == 0 {
        Seq::empty()
    } else {
        pieces[0].0 + left_contents(pieces.drop_first())
    }
}

/// All that the pieces hold of the second file.
pub open spec fn right_contents(pieces: Seq<(Seq<u8>, Seq<u8>)>) -> Seq<u8>
    decreases pieces.len(),
{
    if pieces.len() == 0 {
        Seq::empty()
    } else {
        pieces[0].1 + right_contents(pieces.drop_first())
    }
}

/// Files that are read in pieces, up to their ends, are found identical only where they
/// have the same contents.
pub proof fn law_identical_files_have_equal_contents(pieces: Seq<(Seq<u8>, Seq<u8>)>)
    requires
        verdict_of(pieces) == Verdict::Identical,
        forall|i: int| 0 <= i < pieces.len() - 1 ==> (#[trigger] pieces[i]).0.len() > 0,
    ensures
        left_contents(pieces) == right_contents(pieces),
    decreases pieces.len(),
{
    let rest = pieces.drop_first();
    if verdict_on(pieces[0].0, pieces[0].1) == Verdict::Undecided {
        assert forall|i: int| 0 <= i < rest.len() - 1 implies (#[trigger] rest[i]).0.len() > 0 by {
            assert(rest[i] == pieces[i + 1]);
        }
        law_identical_files_have_equal_contents(rest);
    } else {
        if pieces.len() > 1 {
            assert(pieces[0].0.len() > 0);
        }
        assert(rest =~= Seq::empty());
        assert(left_contents(rest) == Seq::<u8>::empty());
        assert(right_contents(rest) == Seq::<u8>::empty());
    }
}

/// Files with the same contents, read in pieces of equal lengths, are never found
/// different.
pub proof fn law_equal_contents_are_not_found_different(pieces: Seq<(Seq<u8>, Seq<u8>)>)
    requires
        forall|i: int|
            0 <= i < pieces.len() ==> (#[trigger] pieces[i]).0.len() == pieces[i].1.len(),
        left_contents(pieces) == right_contents(pieces),
    ensures
        verdict_of(pieces) != Verdict::Different,
    decreases pieces.len(),
{
    if pieces.len() > 0 {
        let rest = pieces.drop_first();
        let n = pieces[0].0.len() as int;
        assert(pieces[0].1.len() == n);
        assert(left_contents(pieces).take(n) =~= pieces[0].0);
        assert(right_contents(pieces).take(n) =~= pieces[0].1);
        assert(left_contents(pieces).skip(n) =~= left_contents(rest));
        assert(right_contents(pieces).skip(n) =~= right_contents(rest));
        assert forall|i: int| 0 <= i < rest.len() implies (#[trigger] rest[i]).0.len()
            == rest[i].1.len() by {
            assert(rest[i] == pieces[i + 1]);
        }
        law_equal_contents_are_not_found_different(rest);
    }
}

// ---------------------------------------------------------------------------
// Laws
// ---------------------------------------------------------------------------

/// The hash of some contents, read as a hexadecimal number, is the digest of all of them.
pub proof fn law_hash_spells_the_digest(contents: Seq<u8>)
    ensures
        number_worth(content_hash(contents), 16, false) == Some(xxh3_digest(contents) as int),
{
    lemma_digits_worth(xxh3_digest(contents) as nat, 16);
}

/// Contents with one digest have one hash, and contents with two have two.
pub proof fn law_hashes_tell_digests_apart(a: Seq<u8>, b: Seq<u8>)
    ensures
        content_hash(a) == content_hash(b) <==> xxh3_digest(a) == xxh3_digest(b),
{
    law_hash_spells_the_digest(a);
    law_hash_spells_the_digest(b);
}

/// The fingerprint is taken from the first bytes of a file, as many as a sample has, and,
/// where the file is longer than two samples, from as many at its end. A file that is no
/// longer than a sample is taken whole.
pub proof fn law_what_a_fingerprint_is_taken_from(contents: Seq<u8>)
    requires
        contents.len() <= u64::MAX,
    ensures
        ({
            let n: int = 65536;
            let size = contents.len();
            &&& size <= n ==> fingerprint_of(contents) == content_hash(contents)
            &&& n < size <= 2 * n ==> fingerprint_of(contents) == content_hash(contents.take(n))
            &&& size > 2 * n ==> fingerprint_of(contents) == content_hash(
                contents.take(n) + contents.skip(size - n),
            )
        }),
{
    let n = SAMPLE_FINGERPRINT_BYTES as int;
    let size = contents.len();
    if size <= n {
        assert(sampled(contents) =~= contents);
    } else if size <= 2 * n {
        assert(sampled(contents) =~= contents.take(n));
    }
}

/// Two files are told apart at the first pieces that differ, be it in length, and found
/// identical only at the ends of both.
pub proof fn law_verdict_on_pieces(left: Seq<u8>, right: Seq<u8>)
    ensures
        left.len() != right.len() ==> verdict_on(left, right) == Verdict::Different,
        left == right && left.len() > 0 ==> verdict_on(left, right) == Verdict::Undecided,
        left == right && left.len() == 0 ==> verdict_on(left, right) == Verdict::Identical,
        verdict_on(left, right) == Verdict::Different <==> left != right,
{
}

/// Files of different sizes are different, and need not be read; files of one size may be
/// either.
pub proof fn law_sizes_tell_files_apart(left_size: u64, right_size: u64)
    ensures
        left_size == right_size <==> verdict_on_sizes(left_size, right_size) == Verdict::Undecided,
        left_size != right_size <==> verdict_on_sizes(left_size, right_size) == Verdict::Different,
{
}

} // verus!
