use vstd::prelude::*;

verus! {

/// The MD5 digest of a text's UTF-8 bytes (16 bytes).
pub uninterp spec fn md5_of_text(text: Seq<char>) -> Seq<u8>;

/// Relies on md5::compute: the MD5 digest of the given bytes, 16 bytes long.
#[verifier::external_body]
fn md5_digest(text: &str) -> (r: [u8; 16])
    ensures
        r@ == md5_of_text(text@),
{
    md5::compute(text).0
}

/// The content fingerprint of a text value: its MD5 digest.
#[derive(Clone, Copy)]
pub struct Md5Hash {
    bytes: [u8; 16],
}

/// A stored fingerprint whose length is not 16 bytes.
pub struct InvalidMd5HashLength {
    pub len: usize,
}

impl View for Md5Hash {
    type V = Seq<u8>;

    closed spec fn view(&self) -> Seq<u8> {
        self.bytes@
    }
}

impl Md5Hash {
    /// Reads a fingerprint back from its stored bytes.
    pub fn from_bytes(b: &[u8]) -> (r: Result<Md5Hash, InvalidMd5HashLength>)
        ensures
            r is Ok <==> b@.len() == 16,
            r matches Ok(h) ==> h@ == b@,
            r matches Err(e) ==> e.len == b@.len(),
    {
        if b.len() != 16 {
            return Err(InvalidMd5HashLength { len: b.len() });
        }
        let bytes: [u8; 16] = [
            b[0], b[1], b[2], b[3], b[4], b[5], b[6], b[7],
            b[8], b[9], b[10], b[11], b[12], b[13], b[14], b[15],
        ];
        let h = Md5Hash { bytes };
        assert(h@ =~= b@);
        Ok(h)
    }

    /// The 16 bytes of the fingerprint, as stored.
    pub fn to_vec(&self) -> (r: Vec<u8>)
        ensures
            r@ == self@,
            r@.len() == 16,
    {
        let mut v: Vec<u8> = Vec::new();
        let mut i: usize = 0;
        while i < 16
            invariant
                i <= 16,
                self@.len() == 16,
                v@ == self@.subrange(0, i as int),
            decreases 16 - i,
        {
            v.push(self.bytes[i]);
            i = i + 1;
            assert(v@ =~= self@.subrange(0, i as int));
        }
        assert(v@ =~= self@);
        v
    }

    /// Whether two fingerprints are the same digest.
    pub fn same(&self, other: &Md5Hash) -> (r: bool)
        ensures
            r == (self@ == other@),
    {
        let mut i: usize = 0;
        while i < 16
            invariant
                i <= 16,
                self@.len() == 16,
                other@.len() == 16,
                forall|k: int| 0 <= k < i ==> self@[k] == other@[k],
            decreases 16 - i,
        {
            if self.bytes[i] != other.bytes[i] {
                return false;
            }
            i = i + 1;
        }
        assert(self@ =~= other@);
        true
    }
}

/// The fingerprint of a text value.
pub fn compute(data: &str) -> (r: Md5Hash)
    ensures
        r@ == md5_of_text(data@),
{
    Md5Hash { bytes: md5_digest(data) }
}

} // verus!
