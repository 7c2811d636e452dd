//! Byte-level helpers: the in-memory reader/writer `RW`, and the calls into
//! the gzip (`flate2`) and Brotli (`brotli`) encoders.
use vstd::prelude::*;

verus! {

#[verifier::external_type_specification]
#[verifier::external_body]
pub struct ExIoError(std::io::Error);

/// The bytes that `n` reads from position `pos` of `data` give when the
/// reader's buffer holds `want` bytes.
pub open spec fn read_len(data: Seq<u8>, pos: nat, want: nat) -> nat {
    if pos >= data.len() {
        0
    } else if want < data.len() - pos {
        want
    } else {
        (data.len() - pos) as nat
    }
}

/// An in-memory byte buffer that is read from the front and written at the
/// back.
pub struct RW {
    inner: Vec<u8>,
    pos: usize,
}

impl RW {
    /// The read position never passes the end of the data.
    #[verifier::type_invariant]
    pub closed spec fn cursor_in_bounds(self) -> bool {
        self.pos <= self.inner@.len()
    }

    /// All the bytes held, read or not.
    pub closed spec fn data(&self) -> Seq<u8> {
        self.inner@
    }

    /// How many bytes have been read so far.
    pub closed spec fn cursor(&self) -> nat {
        self.pos as nat
    }

    /// A buffer holding `inner`, with nothing read yet.
    pub fn new(inner: Vec<u8>) -> (rw: RW)
        ensures
            rw.data() == inner@,
            rw.cursor() == 0,
    {
        RW { inner, pos: 0 }
    }

    /// Copies the next unread bytes into the front of `buf`, as many as fit,
    /// and returns how many were copied.
    pub fn read_bytes(&mut self, buf: &mut [u8]) -> (n: usize)
        ensures
            n == read_len(old(self).data(), old(self).cursor(), old(buf)@.len()),
            final(self).data() == old(self).data(),
            final(self).cursor() == old(self).cursor() + n,
            final(self).cursor() <= final(self).data().len(),
            final(buf)@.len() == old(buf)@.len(),
            final(buf)@.subrange(0, n as int) == old(self).data().subrange(
                old(self).cursor() as int,
                old(self).cursor() + n,
            ),
            final(buf)@.subrange(n as int, final(buf)@.len() as int) == old(buf)@.subrange(
                n as int,
                old(buf)@.len() as int,
            ),
    {
        proof {
            use_type_invariant(&*self);
        }
        if self.pos >= self.inner.len() {
            assert(buf@.subrange(0, 0) =~= self.inner@.subrange(self.pos as int, self.pos as int));
            assert(buf@.subrange(0, buf@.len() as int) =~= old(buf)@.subrange(
                0,
                old(buf)@.len() as int,
            ));
            return 0;
        }
        let remaining = self.inner.len() - self.pos;
        let amt = if buf.len() < remaining {
            buf.len()
        } else {
            remaining
        };
        let start = self.pos;
        let mut i: usize = 0;
        while i < amt
            invariant
                i <= amt,
                amt <= buf@.len(),
                start + amt <= self.inner.len(),
                buf@.len() == old(buf)@.len(),
                forall|k: int| 0 <= k < i ==> buf@[k] == self.inner@[start + k],
                forall|k: int| amt <= k < buf@.len() ==> buf@[k] == old(buf)@[k],
            decreases amt - i,
        {
            buf[i] = self.inner[start + i];
            i = i + 1;
        }
        self.pos = start + amt;
        assert(buf@.subrange(0, amt as int) =~= self.inner@.subrange(
            start as int,
            start + amt,
        ));
        assert(buf@.subrange(amt as int, buf@.len() as int) =~= old(buf)@.subrange(
            amt as int,
            old(buf)@.len() as int,
        ));
        amt
    }

    /// Appends all of `buf` after the held bytes and returns its length.
    pub fn write_bytes(&mut self, buf: &[u8]) -> (n: usize)
        ensures
            n == buf@.len(),
            final(self).data() == old(self).data() + buf@,
            final(self).cursor() == old(self).cursor(),
    {
        proof {
            use_type_invariant(&*self);
        }
        let mut taken = RW::new(Vec::new());
        std::mem::swap(self, &mut taken);
        let RW { inner: mut data, pos } = taken;
        let mut i: usize = 0;
        let ghost before = data@;
        while i < buf.len()
            invariant
                i <= buf@.len(),
                data@ == before + buf@.take(i as int),
            decreases buf@.len() - i,
        {
            data.push(buf[i]);
            assert(buf@.take(i + 1) =~= buf@.take(i as int).push(buf@[i as int]));
            i = i + 1;
        }
        *self = RW { inner: data, pos };
        assert(buf@.take(buf@.len() as int) =~= buf@);
        buf.len()
    }

    /// All the bytes held, read or not.
    pub fn as_vec(&self) -> (r: &Vec<u8>)
        ensures
            r@ == self.data(),
    {
        &self.inner
    }

    /// The bytes held, read or not, giving up the buffer.
    pub fn into_inner(self) -> (r: Vec<u8>)
        ensures
            r@ == self.data(),
    {
        self.inner
    }
}

impl core::ops::Deref for RW {
    type Target = Vec<u8>;

    fn deref(&self) -> (r: &Vec<u8>)
        ensures
            r@ == self.data(),
    {
        self.as_vec()
    }
}

impl std::io::Read for RW {
    fn read(&mut self, buf: &mut [u8]) -> (r: std::io::Result<usize>)
        ensures
            r matches Ok(n) && n == read_len(old(self).data(), old(self).cursor(), old(buf)@.len())
                && final(buf)@.subrange(0, n as int) == old(self).data().subrange(
                old(self).cursor() as int,
                old(self).cursor() + n,
            ) && final(buf)@.subrange(n as int, final(buf)@.len() as int) == old(buf)@.subrange(
                n as int,
                old(buf)@.len() as int,
            ) && final(self).cursor() == old(self).cursor() + n,
            final(buf)@.len() == old(buf)@.len(),
            final(self).data() == old(self).data(),
    {
        Ok(self.read_bytes(buf))
    }
}

impl std::io::Write for RW {
    fn write(&mut self, buf: &[u8]) -> (r: std::io::Result<usize>)
        ensures
            r matches Ok(n) && n == buf@.len(),
            final(self).data() == old(self).data() + buf@,
            final(self).cursor() == old(self).cursor(),
    {
        Ok(self.write_bytes(buf))
    }

    fn flush(&mut self) -> (r: std::io::Result<()>)
        ensures
            r is Ok,
            final(self).data() == old(self).data(),
            final(self).cursor() == old(self).cursor(),
    {
        Ok(())
    }
}

/// The bytes of an optional vector.
pub open spec fn opt_bytes(o: Option<Vec<u8>>) -> Option<Seq<u8>> {
    match o {
        Some(v) => Some(v@),
        None => None,
    }
}

/// What `brotli::BrotliCompress` gives for `data`, read from a slice and
/// written into an empty `Vec` with the parameters of
/// `brotli::enc::BrotliEncoderInitParams()`: `Some` of the bytes written when
/// it returns `Ok`, `None` when it returns an error.
pub uninterp spec fn brotli_result(data: Seq<u8>) -> Option<Seq<u8>>;

/// What a `flate2::write::GzEncoder` over an empty `Vec` at
/// `flate2::Compression::best()` gives when `data` is written to it with
/// `write_all` and it is finished: `Some` of the finished bytes when both
/// succeed, `None` when either returns an error.
pub uninterp spec fn gzip_result(data: Seq<u8>) -> Option<Seq<u8>>;

/// Calls `brotli::BrotliCompress`, reading all of `data` and writing into a
/// fresh `Vec`, with the parameters of `brotli::enc::BrotliEncoderInitParams()`.
/// Claimed: the outcome (the bytes written on `Ok`, `None` on an error) is a
/// function of `data` alone, `brotli_result(data)`. The encoder reads only
/// from the slice and writes only to the `Vec`; its output depends on
/// nothing else.
#[verifier::external_body]
pub(crate) fn brotli_compress(data: &[u8]) -> (r: Option<Vec<u8>>)
    ensures
        opt_bytes(r) == brotli_result(data@),
{
    let mut input: &[u8] = data;
    let mut out: Vec<u8> = Vec::with_capacity(data.len());
    match brotli::BrotliCompress(&mut input, &mut out, &brotli::enc::BrotliEncoderInitParams()) {
        Ok(_) => Some(out),
        Err(_) => None,
    }
}

/// Writes `data` with `write_all` into a `flate2::write::GzEncoder` over an
/// empty `Vec` at `flate2::Compression::best()` and calls `finish`. Claimed:
/// the outcome (the finished bytes when both succeed, `None` when either
/// returns an error) is a function of `data` alone, `gzip_result(data)`: the
/// gzip header carries no time or name, and the encoder writes only to the
/// `Vec`.
#[verifier::external_body]
pub(crate) fn gzip_compress(data: &[u8]) -> (r: Option<Vec<u8>>)
    ensures
        opt_bytes(r) == gzip_result(data@),
{
    let mut enc = flate2::write::GzEncoder::new(Vec::new(), flate2::Compression::best());
    if std::io::Write::write_all(&mut enc, data).is_err() {
        return None;
    }
    enc.finish().ok()
}

} // verus!
