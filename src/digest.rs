//! Streaming MD5 hashing with lowercase hexadecimal rendering.
use vstd::prelude::*;
use md5::Digest;

verus! {

/// The 16-byte MD5 digest of `data`.
pub uninterp spec fn md5_of(data: Seq<u8>) -> Seq<u8>;

/// The bytes that an MD5 hasher state has absorbed so far.
pub uninterp spec fn absorbed(h: Md5State) -> Seq<u8>;

/// MD5 hasher state of the md-5 crate, kept opaque: Verus cannot take the
/// declaration of its generic core wrapper.
#[verifier::external_body]
pub struct Md5State {
    inner: md5::Md5,
}

/// The lowercase hexadecimal digit for a value below 16.
pub open spec fn hex_digit(n: u8) -> char {
    if n < 10 {
        (('0' as u8) + n) as char
    } else {
        (('a' as u8) + n - 10) as char
    }
}

/// Lowercase hexadecimal text of `b`: two digits per byte, high nibble first.
pub open spec fn hex_text(b: Seq<u8>) -> Seq<char>
    decreases b.len(),
{
    if b.len() == 0 {
        Seq::empty()
    } else {
        hex_text(b.drop_last()) + seq![hex_digit(b.last() / 16), hex_digit(b.last() % 16)]
    }
}

/// The rendered digest of a byte stream: lowercase hex of its MD5.
pub open spec fn md5_hex(data: Seq<u8>) -> Seq<char> {
    hex_text(md5_of(data))
}

/// Relies on `Md5::new` (via `Digest::new`): a fresh state has absorbed nothing.
#[verifier::external_body]
fn md5_new() -> (r: Md5State)
    ensures
        absorbed(r) == Seq::<u8>::empty(),
{
    Md5State { inner: md5::Md5::new() }
}

/// Relies on `Digest::update` of `Md5`: appends `chunk` to the absorbed input.
#[verifier::external_body]
fn md5_update(h: &mut Md5State, chunk: &[u8])
    ensures
        absorbed(*final(h)) == absorbed(*old(h)) + chunk@,
{
    Digest::update(&mut h.inner, chunk)
}

/// Relies on `Digest::finalize` of `Md5`: the 16-byte digest of all absorbed input.
#[verifier::external_body]
fn md5_finalize(h: Md5State) -> (r: Vec<u8>)
    ensures
        r@ == md5_of(absorbed(h)),
        r@.len() == 16,
{
    h.inner.finalize().to_vec()
}

/// Relies on `hex::encode`: two lowercase hex digits per byte, in order.
#[verifier::external_body]
fn hex_encode(b: &[u8]) -> (r: String)
    ensures
        r@ == hex_text(b@),
{
    hex::encode(b)
}

/// An incremental MD5 hasher. Its view is the byte stream fed so far.
pub struct StreamingHasher {
    state: Md5State,
}

impl View for StreamingHasher {
    type V = Seq<u8>;

    closed spec fn view(&self) -> Seq<u8> {
        absorbed(self.state)
    }
}

impl StreamingHasher {
    /// A hasher that has consumed nothing.
    pub fn new() -> (r: StreamingHasher)
        ensures
            r@ == Seq::<u8>::empty(),
    {
        StreamingHasher { state: md5_new() }
    }

    /// Feeds one chunk of any size.
    pub fn update(&mut self, chunk: &[u8])
        ensures
            final(self)@ == old(self)@ + chunk@,
    {
        md5_update(&mut self.state, chunk);
    }

    /// Consumes the hasher and renders the digest of everything fed.
    pub fn finalize(self) -> (r: String)
        ensures
            r@ == md5_hex(self@),
            r@.len() == 32,
    {
        let bytes = md5_finalize(self.state);
        let r = hex_encode(bytes.as_slice());
        proof { lemma_hex_text_len(bytes@); }
        r
    }
}

/// Hex text has two characters per byte.
pub proof fn lemma_hex_text_len(b: Seq<u8>)
    ensures
        hex_text(b).len() == 2 * b.len(),
    decreases b.len(),
{
    if b.len() > 0 {
        lemma_hex_text_len(b.drop_last());
    }
}

/// Digest of a whole byte sequence given at once.
pub fn hash_bytes(data: &[u8]) -> (r: String)
    ensures
        r@ == md5_hex(data@),
{
    let mut h = StreamingHasher::new();
    h.update(data);
    proof { assert(Seq::<u8>::empty() + data@ =~= data@); }
    h.finalize()
}

/// All chunks, one after another.
pub open spec fn concat_chunks(chunks: Seq<Seq<u8>>) -> Seq<u8>
    decreases chunks.len(),
{
    if chunks.len() == 0 {
        Seq::empty()
    } else {
        concat_chunks(chunks.drop_last()) + chunks.last()
    }
}

pub open spec fn chunks_view(chunks: Seq<Vec<u8>>) -> Seq<Seq<u8>> {
    Seq::new(chunks.len(), |i: int| chunks[i]@)
}

/// Digest of a stream given as chunks: the digest of their concatenation,
/// however the stream was cut.
pub fn hash_chunks(chunks: &Vec<Vec<u8>>) -> (r: String)
    ensures
        r@ == md5_hex(concat_chunks(chunks_view(chunks@))),
{
    let ghost cv = chunks_view(chunks@);
    let mut h = StreamingHasher::new();
    let mut i: usize = 0;
    while i < chunks.len()
        invariant
            i <= chunks@.len(),
            cv == chunks_view(chunks@),
            h@ == concat_chunks(cv.take(i as int)),
        decreases chunks.len() - i,
    {
        assert(cv.take(i + 1).drop_last() =~= cv.take(i as int));
        h.update(chunks[i].as_slice());
        i = i + 1;
    }
    assert(cv.take(chunks@.len() as int) =~= cv);
    h.finalize()
}

/// Hashing is a function of the content alone: equal contents, however they
/// were cut into chunks, give equal digests.
pub proof fn hashing_is_deterministic(a: Seq<Seq<u8>>, b: Seq<Seq<u8>>)
    requires
        concat_chunks(a) == concat_chunks(b),
    ensures
        md5_hex(concat_chunks(a)) == md5_hex(concat_chunks(b)),
{
}

} // verus!
