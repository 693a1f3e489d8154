//! Digests of file contents, by which two files are told apart.
use vstd::prelude::*;
use vstd::string::*;

verus! {

/// `blake3::Hasher`, opaque: what it has taken in so far is named by `hashed_bytes`.
#[verifier::external_type_specification]
#[verifier::external_body]
pub struct ExHasher(blake3::Hasher);

/// The bytes that a hasher has taken in, in order.
pub uninterp spec fn hashed_bytes(hasher: blake3::Hasher) -> Seq<u8>;

/// The BLAKE3 hash of `bytes`, in hexadecimal.
pub uninterp spec fn blake3_hex(bytes: Seq<u8>) -> Seq<char>;

/// Calls `blake3::Hasher::new`: a hasher for the regular hash function that
/// has taken nothing in.
#[verifier::external_body]
fn hasher_new() -> (r: blake3::Hasher)
    ensures
        hashed_bytes(r) == Seq::<u8>::empty(),
{
    blake3::Hasher::new()
}

/// Calls `blake3::Hasher::update`: the bytes are added behind those that the
/// hasher has taken in before.
#[verifier::external_body]
fn hasher_update(hasher: &mut blake3::Hasher, bytes: &[u8])
    ensures
        hashed_bytes(*final(hasher)) == hashed_bytes(*old(hasher)) + bytes@,
{
    hasher.update(bytes);
}

/// Calls `blake3::Hasher::finalize` and writes the hash in hexadecimal: the
/// result is a function of the bytes that were taken in, and has two digits
/// for each of the 32 bytes of a hash.
#[verifier::external_body]
fn hasher_hex(hasher: &blake3::Hasher) -> (r: String)
    ensures
        r@ == blake3_hex(hashed_bytes(*hasher)),
        r@.len() == 64,
{
    hasher.finalize().to_hex().to_string()
}

/// The digest of a file that is read piece by piece.
pub struct ContentHash {
    hasher: blake3::Hasher,
}

impl View for ContentHash {
    type V = Seq<u8>;

    /// All that has been read.
    closed spec fn view(&self) -> Seq<u8> {
        hashed_bytes(self.hasher)
    }
}

impl ContentHash {
    pub fn new() -> (r: Self)
        ensures
            r@ == Seq::<u8>::empty(),
    {
        ContentHash { hasher: hasher_new() }
    }

    /// Takes in the next piece.
    pub fn update(&mut self, bytes: &[u8])
        ensures
            final(self)@ == old(self)@ + bytes@,
    {
        hasher_update(&mut self.hasher, bytes);
    }

    /// The digest of everything that was taken in.
    pub fn finish(&self) -> (r: String)
        ensures
            r@ == blake3_hex(self@),
            r@.len() == 64,
    {
        hasher_hex(&self.hasher)
    }
}

/// The bytes of `pieces`, one piece after the other.
pub open spec fn concatenated(pieces: Seq<Seq<u8>>) -> Seq<u8>
    decreases pieces.len(),
{
    if pieces.len() == 0 {
        Seq::empty()
    } else {
        concatenated(pieces.drop_last()) + pieces.last()
    }
}

pub open spec fn piece_views(pieces: Seq<Vec<u8>>) -> Seq<Seq<u8>> {
    pieces.map_values(|p: Vec<u8>| p@)
}

/// The digest of a file that was read in pieces: where it was cut makes no
/// difference.
pub fn hash_file(pieces: &Vec<Vec<u8>>) -> (r: String)
    ensures
        r@ == blake3_hex(concatenated(piece_views(pieces@))),
        r@.len() == 64,
{
    let mut hash = ContentHash::new();
    let mut i: usize = 0;
    let ghost all = piece_views(pieces@);
    while i < pieces.len()
        invariant
            i <= pieces@.len(),
            all == piece_views(pieces@),
            hash@ == concatenated(all.take(i as int)),
        decreases pieces@.len() - i,
    {
        hash.update(pieces[i].as_slice());
        proof {
            assert(all.take(i + 1).drop_last() =~= all.take(i as int));
            assert(all.take(i + 1).last() == pieces@[i as int]@);
        }
        i = i + 1;
    }
    proof {
        assert(all.take(all.len() as int) =~= all);
    }
    hash.finish()
}

/// Where a file is cut makes no difference: its pieces, however cut, make up
/// the same bytes.
pub proof fn pieces_make_up_the_whole(first: Seq<Seq<u8>>, second: Seq<Seq<u8>>, piece: Seq<u8>)
    ensures
        concatenated(seq![piece]) == piece,
        concatenated(first + second) == concatenated(first) + concatenated(second),
    decreases second.len(),
{
    reveal_with_fuel(concatenated, 2);
    assert(concatenated(seq![piece]) =~= piece);
    if second.len() == 0 {
        assert(first + second =~= first);
        assert(concatenated(first + second) =~= concatenated(first) + concatenated(second));
    } else {
        pieces_make_up_the_whole(first, second.drop_last(), piece);
        assert((first + second).drop_last() =~= first + second.drop_last());
        assert(concatenated(first + second) =~= concatenated(first) + concatenated(second));
    }
}

} // verus!
