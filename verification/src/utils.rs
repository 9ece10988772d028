//! A write sink over a caller-supplied, fixed-capacity byte buffer.

use vstd::arithmetic::power2::{lemma2_to64, lemma_pow2_unfold, pow2};
use vstd::prelude::*;
use vstd::string::StringSliceAdditionalSpecFns;
use vstd::utf8::{decode_utf8, valid_utf8};

verus! {

/// The error of a write that does not fit into the remaining capacity.
#[derive(Clone, Copy, Debug, PartialEq, Eq)]
pub struct BufferFull;

/// Appends bytes to a borrowed buffer and never grows it.
///
/// The view of a writer is the sequence of bytes written so far.
pub struct BufferWriter<'a> {
    buf: &'a mut [u8],
    pos: usize,
}

impl<'a> View for BufferWriter<'a> {
    type V = Seq<u8>;

    closed spec fn view(&self) -> Seq<u8> {
        self.buf@.subrange(0, self.pos as int)
    }
}

/// What `as_str` yields when the written bytes are not UTF-8.
pub open spec fn utf8_error_text() -> Seq<char> {
    "<utf8-error>"@
}

/// The text that a sequence of written bytes stands for.
pub open spec fn text_of(bytes: Seq<u8>) -> Seq<char> {
    if valid_utf8(bytes) {
        decode_utf8(bytes)
    } else {
        utf8_error_text()
    }
}

/// `storage` with `bytes` in the place of what it held from index `at` on.
pub open spec fn overlay(storage: Seq<u8>, at: int, bytes: Seq<u8>) -> Seq<u8> {
    storage.subrange(0, at) + bytes + storage.subrange(at + bytes.len(), storage.len() as int)
}

/// The character of one digit: `0` to `9`, then `a` to `f`.
pub open spec fn digit_char(d: nat) -> u8 {
    if d < 10 {
        (0x30 + d) as u8
    } else {
        (0x57 + d) as u8
    }
}

/// The digits of `n` in the given base, highest first and without leading
/// zeros; a single `0` for zero.
pub open spec fn digits(n: nat, base: nat) -> Seq<u8>
    decreases n,
{
    if base < 2 || n < base {
        seq![digit_char(n)]
    } else {
        proof {
            assert(n / base < n) by (nonlinear_arith)
                requires
                    2 <= base <= n,
            ;
        }
        digits(n / base, base).push(digit_char(n % base))
    }
}

/// The decimal digits of `n`, highest first.
pub fn format_decimal(n: u64) -> (text: Vec<u8>)
    ensures
        text@ == digits(n as nat, 10),
{
    format_number(n, 10)
}

/// The hexadecimal digits of `n`, highest first and in lower case.
pub fn format_hex(n: u64) -> (text: Vec<u8>)
    ensures
        text@ == digits(n as nat, 16),
{
    format_number(n, 16)
}

fn format_number(n: u64, base: u64) -> (text: Vec<u8>)
    requires
        2 <= base <= 16,
    ensures
        text@ == digits(n as nat, base as nat),
{
    let mut text: Vec<u8> = Vec::new();
    let mut rest: u64 = n;
    loop
        invariant_except_break
            2 <= base <= 16,
            digits(n as nat, base as nat) == digits(rest as nat, base as nat) + text@,
        ensures
            text@ == digits(n as nat, base as nat),
        decreases rest,
    {
        let d: u64 = rest % base;
        let c: u8 = if d < 10 {
            (0x30 + d) as u8
        } else {
            (0x57 + d) as u8
        };
        let ghost tail = text@;
        text.insert(0, c);
        assert(text@ =~= seq![c] + tail);
        if rest < base {
            assert(d == rest) by (nonlinear_arith)
                requires
                    d == rest % base,
                    0 <= rest < base,
            ;
            assert(digits(rest as nat, base as nat) =~= seq![c]);
            assert(digits(rest as nat, base as nat) + tail =~= text@);
            break ;
        }
        assert(digits(rest as nat, base as nat) + tail =~= digits(
            (rest / base) as nat,
            base as nat,
        ) + text@);
        rest = rest / base;
    }
    text
}

/// `core::str::from_utf8`, with its error dropped: the bytes are accepted
/// exactly when they are well-formed UTF-8, and the text returned is then
/// made of these very bytes.
#[verifier::external_body]
fn checked_utf8(bytes: &[u8]) -> (text: Option<&str>)
    ensures
        text is Some <==> valid_utf8(bytes@),
        text matches Some(s) ==> s.spec_bytes() == bytes@,
{
    core::str::from_utf8(bytes).ok()
}

impl<'a> BufferWriter<'a> {
    #[verifier::type_invariant]
    spec fn inv(self) -> bool {
        self.pos <= self.buf@.len()
    }

    /// Every byte of the underlying buffer, written or not.  The view is its
    /// beginning.
    pub closed spec fn spec_storage(&self) -> Seq<u8> {
        self.buf@
    }

    /// Number of bytes the underlying buffer can hold.
    pub open spec fn spec_capacity(&self) -> nat {
        self.spec_storage().len()
    }

    /// An empty writer over `buf`, whose contents stay as they are.
    pub fn new(buf: &'a mut [u8]) -> (w: Self)
        ensures
            w@ == Seq::<u8>::empty(),
            w.spec_capacity() == old(buf)@.len(),
            w.spec_storage() == old(buf)@,
    {
        Self { buf, pos: 0 }
    }

    /// Number of bytes the underlying buffer can hold.
    pub fn capacity(&self) -> (n: usize)
        ensures
            n == self.spec_capacity(),
            self@.len() <= n,
    {
        proof {
            use_type_invariant(self);
        }
        self.buf.len()
    }

    /// Number of bytes written so far.
    pub fn len(&self) -> (n: usize)
        ensures
            n == self@.len(),
            n <= self.spec_capacity(),
            self@ == self.spec_storage().subrange(0, n as int),
    {
        proof {
            use_type_invariant(self);
        }
        self.pos
    }

    /// Appends `bytes` as a whole, or fails and writes nothing.  No byte of
    /// the buffer changes but those that take `bytes`.
    pub fn write(&mut self, bytes: &[u8]) -> (res: Result<(), BufferFull>)
        ensures
            old(self)@.len() <= old(self).spec_capacity(),
            final(self).spec_capacity() == old(self).spec_capacity(),
            res is Ok <==> old(self)@.len() + bytes@.len() <= old(self).spec_capacity(),
            res is Ok ==> final(self)@ == old(self)@ + bytes@,
            res is Err ==> final(self)@ == old(self)@,
            res is Ok ==> final(self).spec_storage() == overlay(
                old(self).spec_storage(),
                old(self)@.len() as int,
                bytes@,
            ),
            res is Err ==> final(self).spec_storage() == old(self).spec_storage(),
    {
        proof {
            use_type_invariant(&*self);
        }
        let n: usize = bytes.len();
        if n > self.buf.len() - self.pos {
            return Err(BufferFull);
        }
        let mut i: usize = 0;
        while i < n
            invariant
                i <= n,
                n == bytes@.len(),
                self.pos == old(self).pos,
                self.pos + n <= self.buf@.len() <= usize::MAX,
                self.buf@.len() == old(self).buf@.len(),
                self.buf@.subrange(0, self.pos as int) == old(self)@,
                self.buf@.subrange(self.pos as int, self.pos + i) == bytes@.subrange(0, i as int),
                self.buf@.subrange(self.pos + i, self.buf@.len() as int) == old(self).buf@.subrange(
                    self.pos + i,
                    self.buf@.len() as int,
                ),
            decreases n - i,
        {
            let ghost before = self.buf@;
            self.buf[self.pos + i] = bytes[i];
            assert(self.buf@.subrange(0, self.pos as int) =~= before.subrange(0, self.pos as int));
            assert(self.buf@.subrange(self.pos as int, self.pos + i + 1) =~= before.subrange(
                self.pos as int,
                self.pos + i,
            ).push(bytes@[i as int]));
            assert(bytes@.subrange(0, i + 1) =~= bytes@.subrange(0, i as int).push(
                bytes@[i as int],
            ));
            assert(self.buf@.subrange(self.pos + i + 1, self.buf@.len() as int)
                =~= before.subrange(self.pos + i, self.buf@.len() as int).subrange(
                1,
                self.buf@.len() - self.pos - i,
            ));
            assert(old(self).buf@.subrange(self.pos + i + 1, self.buf@.len() as int) =~= old(
                self,
            ).buf@.subrange(self.pos + i, self.buf@.len() as int).subrange(
                1,
                self.buf@.len() - self.pos - i,
            ));
            i = i + 1;
        }
        assert(bytes@.subrange(0, n as int) =~= bytes@);
        assert(self.buf@.subrange(0, self.pos + n) =~= self.buf@.subrange(0, self.pos as int)
            + self.buf@.subrange(self.pos as int, self.pos + n));
        assert(self.buf@ =~= self.buf@.subrange(0, self.pos as int) + self.buf@.subrange(
            self.pos as int,
            self.pos + n,
        ) + self.buf@.subrange(self.pos + n, self.buf@.len() as int));
        self.pos = self.pos + n;
        Ok(())
    }

    /// Appends the UTF-8 bytes of `s` as a whole, or fails and writes nothing.
    /// No byte of the buffer changes but those that take the bytes of `s`.
    pub fn write_str(&mut self, s: &str) -> (res: Result<(), BufferFull>)
        ensures
            old(self)@.len() <= old(self).spec_capacity(),
            final(self).spec_capacity() == old(self).spec_capacity(),
            res is Ok <==> old(self)@.len() + s.spec_bytes().len() <= old(self).spec_capacity(),
            res is Ok ==> final(self)@ == old(self)@ + s.spec_bytes(),
            res is Err ==> final(self)@ == old(self)@,
            res is Ok ==> final(self).spec_storage() == overlay(
                old(self).spec_storage(),
                old(self)@.len() as int,
                s.spec_bytes(),
            ),
            res is Err ==> final(self).spec_storage() == old(self).spec_storage(),
    {
        self.write(s.as_bytes())
    }

    /// Appends one byte, or fails and writes nothing.
    pub fn write_byte(&mut self, byte: u8) -> (res: Result<(), BufferFull>)
        ensures
            old(self)@.len() <= old(self).spec_capacity(),
            final(self).spec_capacity() == old(self).spec_capacity(),
            res is Ok <==> old(self)@.len() + 1 <= old(self).spec_capacity(),
            res is Ok ==> final(self)@ == old(self)@.push(byte),
            res is Err ==> final(self)@ == old(self)@,
            res is Ok ==> final(self).spec_storage() == old(self).spec_storage().update(
                old(self)@.len() as int,
                byte,
            ),
            res is Err ==> final(self).spec_storage() == old(self).spec_storage(),
    {
        proof {
            use_type_invariant(&*self);
        }
        if self.pos >= self.buf.len() {
            return Err(BufferFull);
        }
        let ghost before = self.buf@;
        self.buf[self.pos] = byte;
        assert(self.buf@.subrange(0, self.pos + 1) =~= before.subrange(0, self.pos as int).push(
            byte,
        ));
        self.pos = self.pos + 1;
        Ok(())
    }

    /// Appends `n` in decimal, or fails and writes nothing.
    pub fn write_decimal(&mut self, n: u64) -> (res: Result<(), BufferFull>)
        ensures
            old(self)@.len() <= old(self).spec_capacity(),
            final(self).spec_capacity() == old(self).spec_capacity(),
            res is Ok <==> old(self)@.len() + digits(n as nat, 10).len() <= old(
                self,
            ).spec_capacity(),
            res is Ok ==> final(self)@ == old(self)@ + digits(n as nat, 10),
            res is Err ==> final(self)@ == old(self)@,
            res is Ok ==> final(self).spec_storage() == overlay(
                old(self).spec_storage(),
                old(self)@.len() as int,
                digits(n as nat, 10),
            ),
            res is Err ==> final(self).spec_storage() == old(self).spec_storage(),
    {
        self.write_number(n, 10)
    }

    /// Appends `n` in lower-case hexadecimal, or fails and writes nothing.
    pub fn write_hex(&mut self, n: u64) -> (res: Result<(), BufferFull>)
        ensures
            old(self)@.len() <= old(self).spec_capacity(),
            final(self).spec_capacity() == old(self).spec_capacity(),
            res is Ok <==> old(self)@.len() + digits(n as nat, 16).len() <= old(
                self,
            ).spec_capacity(),
            res is Ok ==> final(self)@ == old(self)@ + digits(n as nat, 16),
            res is Err ==> final(self)@ == old(self)@,
            res is Ok ==> final(self).spec_storage() == overlay(
                old(self).spec_storage(),
                old(self)@.len() as int,
                digits(n as nat, 16),
            ),
            res is Err ==> final(self).spec_storage() == old(self).spec_storage(),
    {
        self.write_number(n, 16)
    }

    /// Appends the digits of `n` in the given base, or fails and writes
    /// nothing.  The digits are laid out in a fixed array, lowest first from
    /// its end, which holds the 64 digits that a number can have at most.
    pub(crate) fn write_number(&mut self, n: u64, base: u64) -> (res: Result<(), BufferFull>)
        requires
            2 <= base <= 16,
        ensures
            old(self)@.len() <= old(self).spec_capacity(),
            final(self).spec_capacity() == old(self).spec_capacity(),
            res is Ok <==> old(self)@.len() + digits(n as nat, base as nat).len() <= old(
                self,
            ).spec_capacity(),
            res is Ok ==> final(self)@ == old(self)@ + digits(n as nat, base as nat),
            res is Err ==> final(self)@ == old(self)@,
            res is Ok ==> final(self).spec_storage() == overlay(
                old(self).spec_storage(),
                old(self)@.len() as int,
                digits(n as nat, base as nat),
            ),
            res is Err ==> final(self).spec_storage() == old(self).spec_storage(),
    {
        let mut text: [u8; 64] = [0u8; 64];
        let mut at: usize = 64;
        let mut rest: u64 = n;
        proof {
            lemma2_to64();
            assert(text@.subrange(64, 64) =~= Seq::<u8>::empty());
            assert(digits(n as nat, base as nat) + Seq::<u8>::empty() =~= digits(
                n as nat,
                base as nat,
            ));
        }
        loop
            invariant_except_break
                2 <= base <= 16,
                1 <= at <= 64,
                rest < pow2(at as nat),
                digits(n as nat, base as nat) == digits(rest as nat, base as nat)
                    + text@.subrange(at as int, 64),
            ensures
                at < 64,
                text@.subrange(at as int, 64) == digits(n as nat, base as nat),
            decreases rest,
        {
            let d: u64 = rest % base;
            let c: u8 = if d < 10 {
                (0x30 + d) as u8
            } else {
                (0x57 + d) as u8
            };
            let ghost tail = text@.subrange(at as int, 64);
            at = at - 1;
            text[at] = c;
            assert(text@.subrange(at as int, 64) =~= seq![c] + tail);
            if rest < base {
                assert(d == rest) by (nonlinear_arith)
                    requires
                        d == rest % base,
                        0 <= rest < base,
                ;
                assert(digits(rest as nat, base as nat) =~= seq![c]);
                break ;
            }
            assert(digits(rest as nat, base as nat) + tail =~= digits(
                (rest / base) as nat,
                base as nat,
            ) + text@.subrange(at as int, 64));
            proof {
                lemma_pow2_unfold((at + 1) as nat);
                assert(1 <= rest / base && 2 * (rest / base) <= rest) by (nonlinear_arith)
                    requires
                        2 <= base <= rest,
                ;
                if at == 0 {
                    lemma2_to64();
                }
            }
            rest = rest / base;
        }
        self.write(vstd::slice::slice_subrange(text.as_slice(), at, 64))
    }

    /// Forgets all but the first `len` bytes written; does nothing if no more
    /// than `len` were written.  No byte of the buffer changes.
    pub fn truncate(&mut self, len: usize)
        ensures
            final(self).spec_storage() == old(self).spec_storage(),
            len <= old(self)@.len() ==> final(self)@ == old(self)@.subrange(0, len as int),
            len > old(self)@.len() ==> final(self)@ == old(self)@,
    {
        proof {
            use_type_invariant(&*self);
        }
        if len < self.pos {
            assert(self.buf@.subrange(0, len as int) =~= self.buf@.subrange(
                0,
                self.pos as int,
            ).subrange(0, len as int));
            self.pos = len;
        } else {
            assert(self.buf@.subrange(0, self.pos as int).subrange(0, self.pos as int)
                =~= self.buf@.subrange(0, self.pos as int));
        }
    }

    /// The bytes written so far.
    pub fn as_bytes(&self) -> (bytes: &[u8])
        ensures
            bytes@ == self@,
    {
        proof {
            use_type_invariant(self);
        }
        vstd::slice::slice_subrange(&*self.buf, 0, self.pos)
    }

    /// The bytes written so far, read as text; a fixed marker if they are
    /// not UTF-8.
    pub fn as_str(&self) -> (text: &str)
        ensures
            text@ == text_of(self@),
            valid_utf8(self@) ==> text.spec_bytes() == self@,
    {
        match checked_utf8(self.as_bytes()) {
            Some(text) => {
                proof {
                    vstd::utf8::encode_utf8_decode_utf8(text@);
                }
                text
            },
            None => "<utf8-error>",
        }
    }
}

/// Whether `storage` holds from index `from` on what `base` holds there.
pub(crate) open spec fn same_tail(storage: Seq<u8>, base: Seq<u8>, from: int) -> bool {
    storage.len() == base.len() && storage.subrange(from, storage.len() as int) == base.subrange(
        from,
        base.len() as int,
    )
}

/// Appends `bytes`; if they do not fit, goes back to the first `mark` bytes.
/// What lies behind the written bytes stays as it is in `base`.
pub(crate) fn put_bytes(
    writer: &mut BufferWriter,
    mark: usize,
    bytes: &[u8],
    Ghost(base): Ghost<Seq<u8>>,
) -> (ok: bool)
    requires
        mark <= old(writer)@.len(),
        same_tail(old(writer).spec_storage(), base, old(writer)@.len() as int),
    ensures
        final(writer).spec_capacity() == old(writer).spec_capacity(),
        ok <==> old(writer)@.len() + bytes@.len() <= old(writer).spec_capacity(),
        ok ==> final(writer)@ == old(writer)@ + bytes@,
        ok ==> same_tail(final(writer).spec_storage(), base, final(writer)@.len() as int),
        ok ==> final(writer)@ == final(writer).spec_storage().subrange(
            0,
            final(writer)@.len() as int,
        ),
        !ok ==> final(writer)@ == old(writer)@.subrange(0, mark as int),
{
    let ghost before = writer.spec_storage();
    let ghost at = writer@.len() as int;
    match writer.write(bytes) {
        Ok(()) => {
            let end: usize = writer.len();
            assert(writer.spec_storage().subrange(end as int, base.len() as int)
                =~= before.subrange(at, base.len() as int).subrange(
                bytes@.len() as int,
                base.len() - at,
            ));
            assert(base.subrange(end as int, base.len() as int) =~= base.subrange(
                at,
                base.len() as int,
            ).subrange(bytes@.len() as int, base.len() - at));
            true
        },
        Err(_) => {
            writer.truncate(mark);
            false
        },
    }
}

/// Appends `byte`; if it does not fit, goes back to the first `mark` bytes.
/// What lies behind the written bytes stays as it is in `base`.
pub(crate) fn put_byte(
    writer: &mut BufferWriter,
    mark: usize,
    byte: u8,
    Ghost(base): Ghost<Seq<u8>>,
) -> (ok: bool)
    requires
        mark <= old(writer)@.len(),
        same_tail(old(writer).spec_storage(), base, old(writer)@.len() as int),
    ensures
        final(writer).spec_capacity() == old(writer).spec_capacity(),
        ok <==> old(writer)@.len() + 1 <= old(writer).spec_capacity(),
        ok ==> final(writer)@ == old(writer)@.push(byte),
        ok ==> same_tail(final(writer).spec_storage(), base, final(writer)@.len() as int),
        ok ==> final(writer)@ == final(writer).spec_storage().subrange(
            0,
            final(writer)@.len() as int,
        ),
        !ok ==> final(writer)@ == old(writer)@.subrange(0, mark as int),
{
    let ghost before = writer.spec_storage();
    let ghost at = writer@.len() as int;
    match writer.write_byte(byte) {
        Ok(()) => {
            let end: usize = writer.len();
            assert(writer.spec_storage().subrange(end as int, base.len() as int)
                =~= before.subrange(at, base.len() as int).subrange(1, base.len() - at));
            assert(base.subrange(end as int, base.len() as int) =~= base.subrange(
                at,
                base.len() as int,
            ).subrange(1, base.len() - at));
            true
        },
        Err(_) => {
            writer.truncate(mark);
            false
        },
    }
}

/// Appends the digits of `n` in the given base; if they do not fit, goes
/// back to the first `mark` bytes.  What lies behind the written bytes stays
/// as it is in `base`.
pub(crate) fn put_number(
    writer: &mut BufferWriter,
    mark: usize,
    n: u64,
    radix: u64,
    Ghost(base): Ghost<Seq<u8>>,
) -> (ok: bool)
    requires
        2 <= radix <= 16,
        mark <= old(writer)@.len(),
        same_tail(old(writer).spec_storage(), base, old(writer)@.len() as int),
    ensures
        final(writer).spec_capacity() == old(writer).spec_capacity(),
        ok <==> old(writer)@.len() + digits(n as nat, radix as nat).len() <= old(
            writer,
        ).spec_capacity(),
        ok ==> final(writer)@ == old(writer)@ + digits(n as nat, radix as nat),
        ok ==> same_tail(final(writer).spec_storage(), base, final(writer)@.len() as int),
        ok ==> final(writer)@ == final(writer).spec_storage().subrange(
            0,
            final(writer)@.len() as int,
        ),
        !ok ==> final(writer)@ == old(writer)@.subrange(0, mark as int),
{
    let ghost before = writer.spec_storage();
    let ghost at = writer@.len() as int;
    let ghost text = digits(n as nat, radix as nat);
    match writer.write_number(n, radix) {
        Ok(()) => {
            let end: usize = writer.len();
            assert(writer.spec_storage().subrange(end as int, base.len() as int)
                =~= before.subrange(at, base.len() as int).subrange(
                text.len() as int,
                base.len() - at,
            ));
            assert(base.subrange(end as int, base.len() as int) =~= base.subrange(
                at,
                base.len() as int,
            ).subrange(text.len() as int, base.len() - at));
            true
        },
        Err(_) => {
            writer.truncate(mark);
            false
        },
    }
}

/// A buffer whose beginning is `head` followed by `bytes`, and whose rest is
/// that of `base`, is `base` with `bytes` laid over it behind `head`.
pub(crate) proof fn lemma_overlay_from_parts(
    storage: Seq<u8>,
    base: Seq<u8>,
    head: Seq<u8>,
    bytes: Seq<u8>,
)
    requires
        head.len() + bytes.len() <= base.len(),
        head == base.subrange(0, head.len() as int),
        storage.subrange(0, (head.len() + bytes.len()) as int) == head + bytes,
        same_tail(storage, base, (head.len() + bytes.len()) as int),
    ensures
        storage == overlay(base, head.len() as int, bytes),
{
    let whole = overlay(base, head.len() as int, bytes);
    let cut = (head.len() + bytes.len()) as int;
    assert forall|k: int| 0 <= k < storage.len() implies storage[k] == whole[k] by {
        if k < cut {
            assert(storage[k] == storage.subrange(0, cut)[k]);
        } else {
            assert(storage[k] == storage.subrange(cut, storage.len() as int)[k - cut]);
            assert(base[k] == base.subrange(cut, base.len() as int)[k - cut]);
        }
    }
    assert(storage =~= whole);
}

} // verus!
