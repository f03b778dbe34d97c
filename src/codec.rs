//! The wire format of primitive and composite values: little-endian integers, one-byte
//! booleans and tags, and four-byte length prefixes, with no padding anywhere.
use vstd::prelude::*;
use vstd::slice::slice_subrange;
use vstd::utf8::{decode_utf8, encode_utf8, valid_utf8};

verus! {

/// Why bytes could not be read as a value.
#[derive(Debug, Clone, Copy, PartialEq, Eq, Structural)]
pub enum DecodeError {
    /// The input ended before the value did.
    UnexpectedEnd,
    /// The bytes are there but break the value's encoding rule.
    InvalidData,
}

/// Why a value could not be written.
#[derive(Debug, Clone, Copy, PartialEq, Eq, Structural)]
pub enum EncodeError {
    /// A length does not fit the four-byte prefix.
    LengthOverflow,
}

/// `256` to the power `n`.
pub open spec fn pow256(n: nat) -> nat
    decreases n,
{
    if n == 0 {
        1
    } else {
        256 * pow256((n - 1) as nat)
    }
}

/// The `width` low bytes of `n`, least significant first.
pub open spec fn le_bytes(n: nat, width: nat) -> Seq<u8>
    decreases width,
{
    if width == 0 {
        Seq::empty()
    } else {
        seq![(n % 256) as u8] + le_bytes(n / 256, (width - 1) as nat)
    }
}

/// The number that little-endian bytes stand for.
pub open spec fn le_value(b: Seq<u8>) -> nat
    decreases b.len(),
{
    if b.len() == 0 {
        0
    } else {
        b[0] as nat + 256 * le_value(b.drop_first())
    }
}

proof fn lemma_pow256_positive(n: nat)
    ensures
        pow256(n) >= 1,
    decreases n,
{
    if n > 0 {
        lemma_pow256_positive((n - 1) as nat);
    }
}

proof fn lemma_le_value_bound(b: Seq<u8>)
    ensures
        le_value(b) < pow256(b.len()),
    decreases b.len(),
{
    if b.len() > 0 {
        lemma_le_value_bound(b.drop_first());
        let r = le_value(b.drop_first());
        let p = pow256((b.len() - 1) as nat);
        assert(b[0] as nat + 256 * r < 256 * p) by (nonlinear_arith)
            requires
                r < p,
                b[0] < 256,
        ;
    }
}

/// Reading back the low bytes of a number that fits them gives the number.
pub proof fn lemma_le_round_trip(n: nat, width: nat)
    requires
        n < pow256(width),
    ensures
        le_bytes(n, width).len() == width,
        le_value(le_bytes(n, width)) == n,
    decreases width,
{
    if width > 0 {
        let q = n / 256;
        let p = pow256((width - 1) as nat);
        assert(q < p) by (nonlinear_arith)
            requires
                n < 256 * p,
                q == n / 256,
        ;
        lemma_le_round_trip(q, (width - 1) as nat);
        let b = le_bytes(n, width);
        assert(b.drop_first() =~= le_bytes(q, (width - 1) as nat));
        assert(n == n % 256 + 256 * q) by (nonlinear_arith)
            requires
                q == n / 256,
        ;
    }
}

proof fn lemma_pow256_values()
    ensures
        pow256(1) == 0x100,
        pow256(2) == 0x10000,
        pow256(4) == 0x1_0000_0000,
        pow256(8) == 0x1_0000_0000_0000_0000,
{
    reveal_with_fuel(pow256, 9);
}

fn write_le(v: u64, width: usize, out: &mut Vec<u8>)
    ensures
        final(out)@ == old(out)@ + le_bytes(v as nat, width as nat),
    decreases width,
{
    if width > 0 {
        out.push((v % 256) as u8);
        write_le(v / 256, width - 1, out);
        proof {
            assert(final(out)@ =~= old(out)@ + le_bytes(v as nat, width as nat));
        }
    }
}

fn read_le(input: &[u8], start: usize, width: usize) -> (r: u64)
    requires
        width <= 8,
        start + width <= input@.len(),
    ensures
        r == le_value(input@.subrange(start as int, start + width)),
    decreases width,
{
    if width == 0 {
        0
    } else {
        let len = input.len();
        assert(start < len);
        let rest = read_le(input, start + 1, width - 1);
        let ghost b = input@.subrange(start as int, start + width);
        proof {
            assert(b.drop_first() =~= input@.subrange(start + 1, start + width));
            lemma_le_value_bound(b);
            lemma_pow256_values();
            assert(pow256(width as nat) <= pow256(8)) by {
                reveal_with_fuel(pow256, 9);
            }
        }
        input[start] as u64 + 256 * rest
    }
}

/// Reading an unsigned integer of `width` bytes from the front of `b`: its value and the
/// number of bytes it took.
pub open spec fn spec_read_uint(b: Seq<u8>, width: nat) -> Result<(nat, nat), DecodeError> {
    if b.len() < width {
        Err(DecodeError::UnexpectedEnd)
    } else {
        Ok((le_value(b.take(width as int)), width))
    }
}

fn read_uint(input: &[u8], width: usize) -> (r: Result<(u64, usize), DecodeError>)
    requires
        width <= 8,
    ensures
        match spec_read_uint(input@, width as nat) {
            Ok((v, n)) => r == Ok::<(u64, usize), DecodeError>((v as u64, n as usize)) && v
                < pow256(width as nat),
            Err(e) => r == Err::<(u64, usize), DecodeError>(e),
        },
{
    if input.len() < width {
        Err(DecodeError::UnexpectedEnd)
    } else {
        let v = read_le(input, 0, width);
        proof {
            assert(input@.subrange(0, width as int) =~= input@.take(width as int));
            lemma_le_value_bound(input@.take(width as int));
        }
        Ok((v, width))
    }
}

/// Write `v` as one byte.
pub fn encode_u8(v: u8, out: &mut Vec<u8>)
    ensures
        final(out)@ == old(out)@ + le_bytes(v as nat, 1),
{
    write_le(v as u64, 1, out);
}

/// Write `v` as four bytes, least significant first.
pub fn encode_u32(v: u32, out: &mut Vec<u8>)
    ensures
        final(out)@ == old(out)@ + le_bytes(v as nat, 4),
{
    write_le(v as u64, 4, out);
}

/// Write `v` as eight bytes, least significant first.
pub fn encode_u64(v: u64, out: &mut Vec<u8>)
    ensures
        final(out)@ == old(out)@ + le_bytes(v as nat, 8),
{
    write_le(v, 8, out);
}

/// Read one byte from the front of `input`.
pub fn decode_u8(input: &[u8]) -> (r: Result<(u8, usize), DecodeError>)
    ensures
        match spec_read_uint(input@, 1) {
            Ok((v, n)) => r == Ok::<(u8, usize), DecodeError>((v as u8, n as usize)),
            Err(e) => r == Err::<(u8, usize), DecodeError>(e),
        },
{
    proof {
        lemma_pow256_values();
    }
    match read_uint(input, 1) {
        Ok((v, n)) => Ok((v as u8, n)),
        Err(e) => Err(e),
    }
}

/// Read a four-byte little-endian integer from the front of `input`.
pub fn decode_u32(input: &[u8]) -> (r: Result<(u32, usize), DecodeError>)
    ensures
        match spec_read_uint(input@, 4) {
            Ok((v, n)) => r == Ok::<(u32, usize), DecodeError>((v as u32, n as usize)),
            Err(e) => r == Err::<(u32, usize), DecodeError>(e),
        },
{
    proof {
        lemma_pow256_values();
    }
    match read_uint(input, 4) {
        Ok((v, n)) => Ok((v as u32, n)),
        Err(e) => Err(e),
    }
}

/// Read an eight-byte little-endian integer from the front of `input`.
pub fn decode_u64(input: &[u8]) -> (r: Result<(u64, usize), DecodeError>)
    ensures
        match spec_read_uint(input@, 8) {
            Ok((v, n)) => r == Ok::<(u64, usize), DecodeError>((v as u64, n as usize)),
            Err(e) => r == Err::<(u64, usize), DecodeError>(e),
        },
{
    read_uint(input, 8)
}

/// Reading an integer back from its encoding, followed by anything, gives the integer
/// and its width; reading it from any shorter prefix of the encoding runs out of input.
pub proof fn lemma_uint_round_trip(v: nat, width: nat, rest: Seq<u8>)
    requires
        v < pow256(width),
    ensures
        spec_read_uint(le_bytes(v, width) + rest, width) == Ok::<(nat, nat), DecodeError>(
            (v, width),
        ),
        forall|k: int|
            0 <= k < width ==> spec_read_uint(#[trigger] le_bytes(v, width).take(k), width)
                == Err::<(nat, nat), DecodeError>(DecodeError::UnexpectedEnd),
{
    lemma_le_round_trip(v, width);
    assert((le_bytes(v, width) + rest).take(width as int) =~= le_bytes(v, width));
}

/// The encoding of a boolean: one byte, 1 for true and 0 for false.
pub open spec fn bool_byte(v: bool) -> u8 {
    if v {
        1
    } else {
        0
    }
}

/// Reading a boolean from the front of `b`.
pub open spec fn spec_read_bool(b: Seq<u8>) -> Result<(bool, nat), DecodeError> {
    if b.len() == 0 {
        Err(DecodeError::UnexpectedEnd)
    } else if b[0] == 0 {
        Ok((false, 1))
    } else if b[0] == 1 {
        Ok((true, 1))
    } else {
        Err(DecodeError::InvalidData)
    }
}

/// Write `v` as one byte, 0 or 1.
pub fn encode_bool(v: bool, out: &mut Vec<u8>)
    ensures
        final(out)@ == old(out)@.push(bool_byte(v)),
{
    out.push(if v {
        1
    } else {
        0
    });
}

/// Read a boolean from the front of `input`; a byte other than 0 or 1 is invalid.
pub fn decode_bool(input: &[u8]) -> (r: Result<(bool, usize), DecodeError>)
    ensures
        match spec_read_bool(input@) {
            Ok((v, n)) => r == Ok::<(bool, usize), DecodeError>((v, n as usize)),
            Err(e) => r == Err::<(bool, usize), DecodeError>(e),
        },
{
    if input.len() == 0 {
        Err(DecodeError::UnexpectedEnd)
    } else if input[0] == 0 {
        Ok((false, 1))
    } else if input[0] == 1 {
        Ok((true, 1))
    } else {
        Err(DecodeError::InvalidData)
    }
}

/// Reading a boolean back from its encoding, followed by anything, gives the boolean;
/// reading it from nothing runs out of input.
pub proof fn lemma_bool_round_trip(v: bool, rest: Seq<u8>)
    ensures
        spec_read_bool(seq![bool_byte(v)] + rest) == Ok::<(bool, nat), DecodeError>((v, 1)),
        spec_read_bool(Seq::empty()) == Err::<(bool, nat), DecodeError>(
            DecodeError::UnexpectedEnd,
        ),
{
}

/// The encoding of an optional integer: a presence byte, then the value if present.
pub open spec fn option_bytes(v: Option<u64>) -> Seq<u8> {
    match v {
        None => seq![0u8],
        Some(x) => seq![1u8] + le_bytes(x as nat, 8),
    }
}

/// Reading an optional integer from the front of `b`.
pub open spec fn spec_read_option(b: Seq<u8>) -> Result<(Option<u64>, nat), DecodeError> {
    if b.len() == 0 {
        Err(DecodeError::UnexpectedEnd)
    } else if b[0] == 0 {
        Ok((None, 1))
    } else if b[0] == 1 {
        match spec_read_uint(b.drop_first(), 8) {
            Ok((x, n)) => Ok((Some(x as u64), n + 1)),
            Err(e) => Err(e),
        }
    } else {
        Err(DecodeError::InvalidData)
    }
}

/// Write a presence byte, then the value if there is one.
pub fn encode_option_u64(v: Option<u64>, out: &mut Vec<u8>)
    ensures
        final(out)@ == old(out)@ + option_bytes(v),
{
    match v {
        None => {
            out.push(0);
            proof {
                assert(final(out)@ =~= old(out)@ + option_bytes(v));
            }
        },
        Some(x) => {
            out.push(1);
            encode_u64(x, out);
            proof {
                assert(final(out)@ =~= old(out)@ + option_bytes(v));
            }
        },
    }
}

/// Read an optional integer from the front of `input`; a presence byte other than 0 or
/// 1 is invalid.
pub fn decode_option_u64(input: &[u8]) -> (r: Result<(Option<u64>, usize), DecodeError>)
    ensures
        match spec_read_option(input@) {
            Ok((v, n)) => r == Ok::<(Option<u64>, usize), DecodeError>((v, n as usize)),
            Err(e) => r == Err::<(Option<u64>, usize), DecodeError>(e),
        },
{
    if input.len() == 0 {
        Err(DecodeError::UnexpectedEnd)
    } else if input[0] == 0 {
        Ok((None, 1))
    } else if input[0] == 1 {
        if input.len() < 9 {
            Err(DecodeError::UnexpectedEnd)
        } else {
            let x = read_le(input, 1, 8);
            proof {
                assert(input@.subrange(1, 9) =~= input@.drop_first().take(8));
            }
            Ok((Some(x), 9))
        }
    } else {
        Err(DecodeError::InvalidData)
    }
}

/// Reading an optional integer back from its encoding, followed by anything, gives it;
/// reading it from any shorter prefix of the encoding runs out of input.
pub proof fn lemma_option_round_trip(v: Option<u64>, rest: Seq<u8>)
    ensures
        spec_read_option(option_bytes(v) + rest) == Ok::<(Option<u64>, nat), DecodeError>(
            (v, option_bytes(v).len()),
        ),
        forall|k: int|
            0 <= k < option_bytes(v).len() ==> spec_read_option(
                #[trigger] option_bytes(v).take(k),
            ) == Err::<(Option<u64>, nat), DecodeError>(DecodeError::UnexpectedEnd),
{
    lemma_pow256_values();
    if let Some(x) = v {
        lemma_uint_round_trip(x as nat, 8, rest);
        lemma_le_round_trip(x as nat, 8);
        assert(option_bytes(v).len() == 9);
        assert((option_bytes(v) + rest)[0] == 1);
        assert((option_bytes(v) + rest).drop_first() =~= le_bytes(x as nat, 8) + rest);
        assert forall|k: int| 0 <= k < option_bytes(v).len() implies spec_read_option(
            #[trigger] option_bytes(v).take(k),
        ) == Err::<(Option<u64>, nat), DecodeError>(DecodeError::UnexpectedEnd) by {
            if k > 0 {
                assert(option_bytes(v).take(k)[0] == 1);
                assert(option_bytes(v).take(k).drop_first().len() < 8);
            }
        }
    } else {
        assert((option_bytes(v) + rest)[0] == 0);
    }
}

/// The elements of a sequence of integers, eight bytes each, in order.
pub open spec fn elems_bytes(s: Seq<u64>) -> Seq<u8>
    decreases s.len(),
{
    if s.len() == 0 {
        Seq::empty()
    } else {
        elems_bytes(s.drop_last()) + le_bytes(s.last() as nat, 8)
    }
}

/// The encoding of a sequence of integers: a four-byte count, then the elements.
pub open spec fn vec_bytes(s: Seq<u64>) -> Seq<u8> {
    le_bytes(s.len(), 4) + elems_bytes(s)
}

/// Reading a sequence of integers from the front of `b`. A count that claims more
/// elements than the bytes hold runs out of input before anything is read.
pub open spec fn spec_read_vec(b: Seq<u8>) -> Result<(Seq<u64>, nat), DecodeError> {
    if b.len() < 4 {
        Err(DecodeError::UnexpectedEnd)
    } else {
        let c = le_value(b.take(4));
        if b.len() < 4 + 8 * c {
            Err(DecodeError::UnexpectedEnd)
        } else {
            Ok((Seq::new(c, |i: int| le_value(b.subrange(4 + 8 * i, 12 + 8 * i)) as u64), 4 + 8 * c))
        }
    }
}

proof fn lemma_elems_bytes(s: Seq<u64>)
    ensures
        elems_bytes(s).len() == 8 * s.len(),
        forall|i: int|
            0 <= i < s.len() ==> #[trigger] elems_bytes(s).subrange(8 * i, 8 * i + 8) == le_bytes(
                s[i] as nat,
                8,
            ),
    decreases s.len(),
{
    lemma_pow256_values();
    if s.len() > 0 {
        let p = s.drop_last();
        lemma_elems_bytes(p);
        lemma_le_round_trip(s.last() as nat, 8);
        assert forall|i: int| 0 <= i < s.len() implies #[trigger] elems_bytes(s).subrange(
            8 * i,
            8 * i + 8,
        ) == le_bytes(s[i] as nat, 8) by {
            if i < p.len() {
                assert(elems_bytes(s).subrange(8 * i, 8 * i + 8) =~= elems_bytes(p).subrange(
                    8 * i,
                    8 * i + 8,
                ));
                assert(p[i] == s[i]);
            } else {
                assert(elems_bytes(s).subrange(8 * i, 8 * i + 8) =~= le_bytes(s.last() as nat, 8));
            }
        }
    }
}

/// Write each element of a fixed array in order, with no count: the length is known to
/// both sides.
pub fn encode_array_u64<const N: usize>(v: &[u64; N], out: &mut Vec<u8>)
    ensures
        final(out)@ == old(out)@ + elems_bytes(v@),
{
    let mut i: usize = 0;
    proof {
        assert(v@.take(0) =~= Seq::<u64>::empty());
        assert(out@ =~= old(out)@ + elems_bytes(v@.take(0)));
    }
    while i < N
        invariant
            N == v@.len(),
            0 <= i <= N,
            out@ == old(out)@ + elems_bytes(v@.take(i as int)),
        decreases N - i,
    {
        encode_u64(v[i], out);
        proof {
            assert(v@.take(i + 1).drop_last() =~= v@.take(i as int));
            assert(out@ =~= old(out)@ + elems_bytes(v@.take(i + 1)));
        }
        i += 1;
    }
    proof {
        assert(v@.take(N as int) =~= v@);
    }
}

/// Write a four-byte count, then each element in order. A sequence whose length does not
/// fit the count is refused and nothing is written.
pub fn encode_vec_u64(v: &Vec<u64>, out: &mut Vec<u8>) -> (r: Result<(), EncodeError>)
    ensures
        r is Err <==> v@.len() > u32::MAX,
        r is Err ==> r == Err::<(), EncodeError>(EncodeError::LengthOverflow) && final(out)@ == old(
            out,
        )@,
        r is Ok ==> final(out)@ == old(out)@ + vec_bytes(v@),
{
    if v.len() > u32::MAX as usize {
        return Err(EncodeError::LengthOverflow);
    }
    encode_u32(v.len() as u32, out);
    proof {
        assert(v@.take(0) =~= Seq::<u64>::empty());
        assert(out@ =~= old(out)@ + le_bytes(v@.len(), 4) + elems_bytes(v@.take(0)));
    }
    let mut i: usize = 0;
    while i < v.len()
        invariant
            0 <= i <= v@.len(),
            out@ == old(out)@ + le_bytes(v@.len(), 4) + elems_bytes(v@.take(i as int)),
        decreases v@.len() - i,
    {
        encode_u64(v[i], out);
        proof {
            assert(v@.take(i + 1).drop_last() =~= v@.take(i as int));
            assert(out@ =~= old(out)@ + le_bytes(v@.len(), 4) + elems_bytes(v@.take(i + 1)));
        }
        i += 1;
    }
    proof {
        assert(v@.take(v@.len() as int) =~= v@);
        assert(final(out)@ =~= old(out)@ + vec_bytes(v@));
    }
    Ok(())
}

/// Read a four-byte count, then that many eight-byte integers, from the front of `input`.
pub fn decode_vec_u64(input: &[u8]) -> (r: Result<(Vec<u64>, usize), DecodeError>)
    ensures
        match spec_read_vec(input@) {
            Ok((s, n)) => r matches Ok((v, m)) && v@ == s && m == n,
            Err(e) => r == Err::<(Vec<u64>, usize), DecodeError>(e),
        },
{
    let count = match decode_u32(input) {
        Ok((c, _)) => c as usize,
        Err(e) => {
            return Err(e);
        },
    };
    proof {
        lemma_pow256_values();
        lemma_le_value_bound(input@.take(4));
        assert(count == le_value(input@.take(4)));
    }
    let len = input.len();
    let room = (len - 4) / 8;
    proof {
        let l = input@.len() - 4;
        assert((l / 8 < count) <==> (l < 8 * count)) by (nonlinear_arith)
            requires
                l >= 0,
        ;
    }
    if room < count {
        return Err(DecodeError::UnexpectedEnd);
    }
    let mut v: Vec<u64> = Vec::new();
    let mut i: usize = 0;
    while i < count
        invariant
            0 <= i <= count,
            4 + 8 * count <= input@.len(),
            len == input@.len(),
            v@ =~= Seq::new(i as nat, |j: int| le_value(input@.subrange(4 + 8 * j, 12 + 8 * j)) as u64),
        decreases count - i,
    {
        assert(4 + 8 * i + 8 <= 4 + 8 * count) by (nonlinear_arith)
            requires
                i < count,
        ;
        let x = read_le(input, 4 + 8 * i, 8);
        v.push(x);
        i += 1;
    }
    Ok((v, 4 + 8 * count))
}

/// Reading a sequence of integers back from its encoding, followed by anything, gives the
/// sequence; reading it from any shorter prefix of the encoding runs out of input.
pub proof fn lemma_vec_round_trip(s: Seq<u64>, rest: Seq<u8>)
    requires
        s.len() <= u32::MAX,
    ensures
        spec_read_vec(vec_bytes(s) + rest) == Ok::<(Seq<u64>, nat), DecodeError>(
            (s, vec_bytes(s).len()),
        ),
        forall|k: int|
            0 <= k < vec_bytes(s).len() ==> spec_read_vec(#[trigger] vec_bytes(s).take(k))
                == Err::<(Seq<u64>, nat), DecodeError>(DecodeError::UnexpectedEnd),
{
    lemma_pow256_values();
    lemma_le_round_trip(s.len(), 4);
    lemma_elems_bytes(s);
    let b = vec_bytes(s) + rest;
    assert(b.take(4) =~= le_bytes(s.len(), 4));
    let decoded = Seq::new(s.len(), |i: int| le_value(b.subrange(4 + 8 * i, 12 + 8 * i)) as u64);
    assert forall|i: int| 0 <= i < s.len() implies decoded[i] == s[i] by {
        assert(b.subrange(4 + 8 * i, 12 + 8 * i) =~= elems_bytes(s).subrange(8 * i, 8 * i + 8));
        lemma_le_round_trip(s[i] as nat, 8);
    }
    assert(decoded =~= s);
    assert forall|k: int| 0 <= k < vec_bytes(s).len() implies spec_read_vec(
        #[trigger] vec_bytes(s).take(k),
    ) == Err::<(Seq<u64>, nat), DecodeError>(DecodeError::UnexpectedEnd) by {
        if k >= 4 {
            assert(vec_bytes(s).take(k).take(4) =~= le_bytes(s.len(), 4));
        }
    }
}

/// The encoding of text: a four-byte count of its UTF-8 bytes, then those bytes.
pub open spec fn string_bytes(s: Seq<char>) -> Seq<u8> {
    le_bytes(encode_utf8(s).len(), 4) + encode_utf8(s)
}

/// Reading text from the front of `b`.
pub open spec fn spec_read_string(b: Seq<u8>) -> Result<(Seq<char>, nat), DecodeError> {
    if b.len() < 4 {
        Err(DecodeError::UnexpectedEnd)
    } else {
        let c = le_value(b.take(4));
        if b.len() < 4 + c {
            Err(DecodeError::UnexpectedEnd)
        } else if !valid_utf8(b.subrange(4, 4 + c as int)) {
            Err(DecodeError::InvalidData)
        } else {
            Ok((decode_utf8(b.subrange(4, 4 + c as int)), 4 + c))
        }
    }
}

/// Relies on std::str::from_utf8: it accepts exactly the byte strings that are valid
/// UTF-8, and then gives the characters they encode.
#[verifier::external_body]
fn utf8_text(bytes: &[u8]) -> (r: Option<String>)
    ensures
        r is Some <==> valid_utf8(bytes@),
        r matches Some(t) ==> t@ == decode_utf8(bytes@),
{
    match std::str::from_utf8(bytes) {
        Ok(t) => Some(t.to_string()),
        Err(_) => None,
    }
}

/// Write a four-byte count of the UTF-8 bytes of `s`, then the bytes. Text whose length
/// does not fit the count is refused and nothing is written.
pub fn encode_string(s: &str, out: &mut Vec<u8>) -> (r: Result<(), EncodeError>)
    ensures
        r is Err <==> encode_utf8(s@).len() > u32::MAX,
        r is Err ==> r == Err::<(), EncodeError>(EncodeError::LengthOverflow) && final(out)@ == old(
            out,
        )@,
        r is Ok ==> final(out)@ == old(out)@ + string_bytes(s@),
{
    let bytes = s.as_bytes();
    if bytes.len() > u32::MAX as usize {
        return Err(EncodeError::LengthOverflow);
    }
    encode_u32(bytes.len() as u32, out);
    let ghost start = out@;
    let mut i: usize = 0;
    while i < bytes.len()
        invariant
            0 <= i <= bytes@.len(),
            out@ == start + bytes@.take(i as int),
        decreases bytes@.len() - i,
    {
        out.push(bytes[i]);
        proof {
            assert(out@ =~= start + bytes@.take(i + 1));
        }
        i += 1;
    }
    proof {
        assert(bytes@.take(bytes@.len() as int) =~= bytes@);
        assert(out@ =~= old(out)@ + string_bytes(s@));
    }
    Ok(())
}

/// Read text from the front of `input`: a four-byte count, then that many bytes, which
/// must be valid UTF-8.
pub fn decode_string(input: &[u8]) -> (r: Result<(String, usize), DecodeError>)
    ensures
        match spec_read_string(input@) {
            Ok((t, n)) => r matches Ok((v, m)) && v@ == t && m == n,
            Err(e) => r == Err::<(String, usize), DecodeError>(e),
        },
{
    let count = match decode_u32(input) {
        Ok((c, _)) => c as usize,
        Err(e) => {
            return Err(e);
        },
    };
    proof {
        lemma_pow256_values();
        lemma_le_value_bound(input@.take(4));
        assert(count == le_value(input@.take(4)));
    }
    if input.len() - 4 < count {
        return Err(DecodeError::UnexpectedEnd);
    }
    let body = slice_subrange(input, 4, 4 + count);
    match utf8_text(body) {
        Some(t) => Ok((t, 4 + count)),
        None => Err(DecodeError::InvalidData),
    }
}

/// Reading text back from its encoding, followed by anything, gives the text; reading it
/// from any shorter prefix of the encoding runs out of input.
pub proof fn lemma_string_round_trip(s: Seq<char>, rest: Seq<u8>)
    requires
        encode_utf8(s).len() <= u32::MAX,
    ensures
        spec_read_string(string_bytes(s) + rest) == Ok::<(Seq<char>, nat), DecodeError>(
            (s, string_bytes(s).len()),
        ),
        forall|k: int|
            0 <= k < string_bytes(s).len() ==> spec_read_string(#[trigger] string_bytes(s).take(k))
                == Err::<(Seq<char>, nat), DecodeError>(DecodeError::UnexpectedEnd),
{
    let e = encode_utf8(s);
    lemma_pow256_values();
    lemma_le_round_trip(e.len(), 4);
    let b = string_bytes(s) + rest;
    assert(b.take(4) =~= le_bytes(e.len(), 4));
    assert(b.subrange(4, 4 + e.len() as int) =~= e);
    vstd::utf8::encode_utf8_valid_utf8(s);
    vstd::utf8::encode_utf8_decode_utf8(s);
    assert forall|k: int| 0 <= k < string_bytes(s).len() implies spec_read_string(
        #[trigger] string_bytes(s).take(k),
    ) == Err::<(Seq<char>, nat), DecodeError>(DecodeError::UnexpectedEnd) by {
        if k >= 4 {
            assert(string_bytes(s).take(k).take(4) =~= le_bytes(e.len(), 4));
        }
    }
}

/// The map that a list of `(key, text)` entries stands for; a later entry for a key
/// replaces an earlier one.
pub open spec fn entries_view(e: Seq<(u64, String)>) -> Map<u64, Seq<char>>
    decreases e.len(),
{
    if e.len() == 0 {
        Map::empty()
    } else {
        entries_view(e.drop_last()).insert(e.last().0, e.last().1@)
    }
}

/// Each key is strictly smaller than the next.
pub open spec fn strictly_increasing(s: Seq<u64>) -> bool {
    forall|i: int, j: int| 0 <= i < j < s.len() ==> s[i] < s[j]
}

/// The keys of a map in increasing order: the canonical order of its entries.
pub open spec fn sorted_keys(m: Map<u64, Seq<char>>) -> Seq<u64> {
    choose|s: Seq<u64>| strictly_increasing(s) && s.to_set() == m.dom()
}

/// The entries of `m` under `keys`, in that order: each key in eight bytes, then its text.
pub open spec fn pairs_bytes(keys: Seq<u64>, m: Map<u64, Seq<char>>) -> Seq<u8>
    decreases keys.len(),
{
    if keys.len() == 0 {
        Seq::empty()
    } else {
        pairs_bytes(keys.drop_last(), m) + le_bytes(keys.last() as nat, 8) + string_bytes(
            m[keys.last()],
        )
    }
}

/// The canonical encoding of a map from integers to text: a four-byte count, then the
/// entries in increasing order of key.
pub open spec fn map_bytes(m: Map<u64, Seq<char>>) -> Seq<u8> {
    le_bytes(m.dom().len(), 4) + pairs_bytes(sorted_keys(m), m)
}

/// Two strictly increasing sequences with the same elements are the same sequence.
proof fn lemma_sorted_unique(a: Seq<u64>, b: Seq<u64>)
    requires
        strictly_increasing(a),
        strictly_increasing(b),
        a.to_set() == b.to_set(),
    ensures
        a == b,
    decreases a.len(),
{
    if a.len() == 0 {
        if b.len() > 0 {
            assert(b.to_set().contains(b[0]));
        }
        assert(b =~= a);
    } else {
        assert(a.to_set().contains(a[0]));
        assert(b.len() > 0) by {
            if b.len() == 0 {
                assert(b.to_set() =~= Set::<u64>::empty());
            }
        }
        assert(b.to_set().contains(b[0]));
        let i = choose|i: int| 0 <= i < b.len() && b[i] == a[0];
        let j = choose|j: int| 0 <= j < a.len() && a[j] == b[0];
        assert(a[0] == b[0]) by {
            if i > 0 {
                assert(b[0] < b[i]);
                assert(a[0] <= a[j]);
            }
        }
        let a1 = a.drop_first();
        let b1 = b.drop_first();
        assert(a1.to_set() =~= b1.to_set()) by {
            assert forall|x: u64| a1.to_set().contains(x) implies b1.to_set().contains(x) by {
                let p = choose|p: int| 0 <= p < a1.len() && a1[p] == x;
                assert(a.to_set().contains(x));
                let q = choose|q: int| 0 <= q < b.len() && b[q] == x;
                assert(a[0] < a[p + 1]);
                assert(q != 0);
                assert(b1[q - 1] == x);
            }
            assert forall|x: u64| b1.to_set().contains(x) implies a1.to_set().contains(x) by {
                let p = choose|p: int| 0 <= p < b1.len() && b1[p] == x;
                assert(b.to_set().contains(x));
                let q = choose|q: int| 0 <= q < a.len() && a[q] == x;
                assert(b[0] < b[p + 1]);
                assert(q != 0);
                assert(a1[q - 1] == x);
            }
        }
        lemma_sorted_unique(a1, b1);
        assert(a =~= seq![a[0]] + a1);
        assert(b =~= seq![b[0]] + b1);
    }
}

/// No two entries share a key.
pub open spec fn distinct_keys(e: Seq<(u64, String)>) -> bool {
    forall|i: int, j: int| 0 <= i < e.len() && 0 <= j < e.len() && i != j ==> e[i].0 != e[j].0
}

proof fn lemma_entries_view(e: Seq<(u64, String)>)
    requires
        distinct_keys(e),
    ensures
        forall|k: u64| entries_view(e).contains_key(k) <==> exists|i: int| 0 <= i < e.len() && e[i].0 == k,
        forall|i: int| 0 <= i < e.len() ==> #[trigger] entries_view(e)[e[i].0] == e[i].1@,
        entries_view(e).dom().finite(),
        entries_view(e).dom().len() == e.len(),
    decreases e.len(),
{
    if e.len() > 0 {
        let p = e.drop_last();
        assert(distinct_keys(p));
        lemma_entries_view(p);
        assert forall|k: u64|
            entries_view(e).contains_key(k) <==> exists|i: int| 0 <= i < e.len() && e[i].0 == k by {
            if entries_view(e).contains_key(k) && k != e.last().0 {
                let i = choose|i: int| 0 <= i < p.len() && p[i].0 == k;
                assert(e[i] == p[i]);
            }
            if exists|i: int| 0 <= i < e.len() && e[i].0 == k {
                let i = choose|i: int| 0 <= i < e.len() && e[i].0 == k;
                if i < p.len() {
                    assert(p[i] == e[i]);
                }
            }
        }
        assert forall|i: int| 0 <= i < e.len() implies #[trigger] entries_view(e)[e[i].0]
            == e[i].1@ by {
            if i < p.len() {
                assert(p[i] == e[i]);
                assert(e[i].0 != e[e.len() - 1].0);
            }
        }
        assert(!entries_view(p).contains_key(e.last().0)) by {
            if entries_view(p).contains_key(e.last().0) {
                let i = choose|i: int| 0 <= i < p.len() && p[i].0 == e.last().0;
                assert(e[i].0 == e[e.len() - 1].0);
            }
        }
    }
}

/// Write a map from integers to text in its canonical form: a four-byte count, then
/// each entry, key then text, in increasing order of key, whatever the order of
/// `entries`. A count or a text too long for its four-byte prefix is refused and nothing
/// is written.
pub fn encode_map(entries: &Vec<(u64, String)>, out: &mut Vec<u8>) -> (r: Result<
    (),
    EncodeError,
>)
    requires
        distinct_keys(entries@),
    ensures
        r is Err <==> (entries@.len() > u32::MAX || exists|i: int|
            0 <= i < entries@.len() && encode_utf8(entries@[i].1@).len() > u32::MAX),
        r is Err ==> r == Err::<(), EncodeError>(EncodeError::LengthOverflow) && final(out)@ == old(
            out,
        )@,
        r is Ok ==> final(out)@ == old(out)@ + map_bytes(entries_view(entries@)),
{
    let n = entries.len();
    if n > u32::MAX as usize {
        return Err(EncodeError::LengthOverflow);
    }
    let mut c: usize = 0;
    while c < n
        invariant
            n == entries@.len(),
            0 <= c <= n,
            forall|i: int| 0 <= i < c ==> encode_utf8(#[trigger] entries@[i].1@).len() <= u32::MAX,
        decreases n - c,
    {
        if entries[c].1.as_str().as_bytes().len() > u32::MAX as usize {
            return Err(EncodeError::LengthOverflow);
        }
        c += 1;
    }
    let mut sorted: Vec<(u64, usize)> = Vec::new();
    let mut i: usize = 0;
    while i < n
        invariant
            n == entries@.len(),
            distinct_keys(entries@),
            0 <= i <= n,
            sorted@.len() == i,
            forall|a: int, b: int| 0 <= a < b < sorted@.len() ==> sorted@[a].0 < sorted@[b].0,
            forall|a: int|
                0 <= a < sorted@.len() ==> #[trigger] sorted@[a].1 < i && entries@[sorted@[a].1 as int].0
                    == sorted@[a].0,
            forall|j: int| 0 <= j < i ==> exists|a: int| 0 <= a < sorted@.len() && sorted@[a].0 == #[trigger] entries@[j].0,
        decreases n - i,
    {
        let k = entries[i].0;
        let mut p: usize = 0;
        while p < sorted.len() && sorted[p].0 < k
            invariant
                0 <= p <= sorted@.len(),
                forall|a: int| 0 <= a < p ==> sorted@[a].0 < k,
            decreases sorted@.len() - p,
        {
            p += 1;
        }
        proof {
            assert forall|a: int| 0 <= a < sorted@.len() implies sorted@[a].0 != k by {
                assert(sorted@[a].1 < i);
                assert(entries@[sorted@[a].1 as int].0 != entries@[i as int].0);
            }
        }
        let ghost before = sorted@;
        sorted.insert(p, (k, i));
        proof {
            assert forall|j: int| 0 <= j < i + 1 implies exists|a: int| 0 <= a < sorted@.len() && sorted@[a].0 == #[trigger] entries@[j].0 by {
                if j == i {
                    assert(sorted@[p as int].0 == entries@[j].0);
                } else {
                    let a = choose|a: int| 0 <= a < before.len() && before[a].0 == entries@[j].0;
                    if a < p {
                        assert(sorted@[a].0 == entries@[j].0);
                    } else {
                        assert(sorted@[a + 1].0 == entries@[j].0);
                    }
                }
            }
        }
        i += 1;
    }
    let ghost m = entries_view(entries@);
    let ghost keys = sorted@.map_values(|x: (u64, usize)| x.0);
    proof {
        lemma_entries_view(entries@);
        assert(strictly_increasing(keys));
        assert(keys.to_set() =~= m.dom()) by {
            assert forall|k: u64| keys.to_set().contains(k) implies m.dom().contains(k) by {
                let a = choose|a: int| 0 <= a < keys.len() && keys[a] == k;
                assert(entries@[sorted@[a].1 as int].0 == k);
            }
            assert forall|k: u64| m.dom().contains(k) implies keys.to_set().contains(k) by {
                let j = choose|j: int| 0 <= j < entries@.len() && entries@[j].0 == k;
                let a = choose|a: int| 0 <= a < sorted@.len() && sorted@[a].0 == entries@[j].0;
                assert(keys[a] == k);
            }
        }
        lemma_sorted_unique(keys, sorted_keys(m));
    }
    encode_u32(n as u32, out);
    let ghost start = out@;
    let mut t: usize = 0;
    while t < n
        invariant
            n == entries@.len(),
            sorted@.len() == n,
            0 <= t <= n,
            m == entries_view(entries@),
            keys == sorted@.map_values(|x: (u64, usize)| x.0),
            forall|a: int|
                0 <= a < sorted@.len() ==> #[trigger] sorted@[a].1 < n && entries@[sorted@[a].1 as int].0
                    == sorted@[a].0,
            forall|i: int| 0 <= i < n ==> #[trigger] m[entries@[i].0] == entries@[i].1@,
            forall|i: int| 0 <= i < n ==> encode_utf8(#[trigger] entries@[i].1@).len() <= u32::MAX,
            out@ == start + pairs_bytes(keys.take(t as int), m),
        decreases n - t,
    {
        let idx = sorted[t].1;
        encode_u64(sorted[t].0, out);
        let res = encode_string(entries[idx].1.as_str(), out);
        proof {
            let kt = keys.take(t + 1);
            assert(kt.drop_last() =~= keys.take(t as int));
            assert(kt.last() == sorted@[t as int].0);
            assert(m[kt.last()] == entries@[idx as int].1@);
            assert(out@ =~= start + pairs_bytes(kt, m));
        }
        t += 1;
    }
    proof {
        assert(keys.take(n as int) =~= keys);
        assert(out@ =~= old(out)@ + map_bytes(m));
    }
    Ok(())
}

/// Reading `count` map entries from the front of `b`, each key strictly greater than the
/// one before it (than `prev`, for the first).
pub open spec fn spec_read_entries(b: Seq<u8>, count: nat, prev: Option<u64>) -> Result<
    (Seq<(u64, Seq<char>)>, nat),
    DecodeError,
>
    decreases count,
{
    if count == 0 {
        Ok((Seq::empty(), 0))
    } else {
        match spec_read_uint(b, 8) {
            Err(e) => Err(e),
            Ok((k, _)) => {
                if prev is Some && k as u64 <= prev->0 {
                    Err(DecodeError::InvalidData)
                } else {
                    match spec_read_string(b.subrange(8, b.len() as int)) {
                        Err(e) => Err(e),
                        Ok((v, n)) => match spec_read_entries(
                            b.subrange(8 + n as int, b.len() as int),
                            (count - 1) as nat,
                            Some(k as u64),
                        ) {
                            Err(e) => Err(e),
                            Ok((rest, m)) => Ok((seq![(k as u64, v)] + rest, 8 + n + m)),
                        },
                    }
                }
            },
        }
    }
}

/// Reading a map from integers to text from the front of `b`: a four-byte count, then
/// the entries, whose keys must come in strictly increasing order.
pub open spec fn spec_read_map(b: Seq<u8>) -> Result<(Seq<(u64, Seq<char>)>, nat), DecodeError> {
    if b.len() < 4 {
        Err(DecodeError::UnexpectedEnd)
    } else {
        match spec_read_entries(b.subrange(4, b.len() as int), le_value(b.take(4)), None) {
            Ok((e, n)) => Ok((e, n + 4)),
            Err(e) => Err(e),
        }
    }
}

/// Read a map from integers to text from the front of `input`. Entries out of increasing
/// key order, or a key repeated, are invalid: only the canonical encoding is accepted.
pub fn decode_map(input: &[u8]) -> (r: Result<(Vec<(u64, String)>, usize), DecodeError>)
    ensures
        match spec_read_map(input@) {
            Ok((e, n)) => r matches Ok((v, m)) && v@.map_values(|x: (u64, String)| (x.0, x.1@))
                == e && m == n,
            Err(e) => r == Err::<(Vec<(u64, String)>, usize), DecodeError>(e),
        },
{
    let count = match decode_u32(input) {
        Ok((c, _)) => c as usize,
        Err(e) => {
            return Err(e);
        },
    };
    proof {
        lemma_pow256_values();
        lemma_le_value_bound(input@.take(4));
        assert(count == le_value(input@.take(4)));
    }
    let len = input.len();
    let ghost b = input@.subrange(4, len as int);
    let mut v: Vec<(u64, String)> = Vec::new();
    let mut pos: usize = 4;
    let mut prev: Option<u64> = None;
    let mut t: usize = 0;
    while t < count
        invariant
            len == input@.len(),
            4 <= pos <= len,
            0 <= t <= count,
            b == input@.subrange(4, len as int),
            count == le_value(input@.take(4)),
            v@.len() == t,
            t == 0 ==> prev is None,
            spec_read_entries(b, count as nat, None) == match spec_read_entries(
                input@.subrange(pos as int, len as int),
                (count - t) as nat,
                prev,
            ) {
                Ok((rest, n)) => Ok::<(Seq<(u64, Seq<char>)>, nat), DecodeError>(
                    (v@.map_values(|x: (u64, String)| (x.0, x.1@)) + rest, ((pos - 4) + n) as nat),
                ),
                Err(e) => Err(e),
            },
        decreases count - t,
    {
        let ghost cur = input@.subrange(pos as int, len as int);
        let rest_in = slice_subrange(input, pos, len);
        let k = match decode_u64(rest_in) {
            Ok((k, _)) => k,
            Err(e) => {
                proof {
                    assert(spec_read_uint(cur, 8) == Err::<(nat, nat), DecodeError>(e));
                    assert(spec_read_entries(cur, (count - t) as nat, prev) == Err::<
                        (Seq<(u64, Seq<char>)>, nat),
                        DecodeError,
                    >(e));
                    assert(spec_read_entries(b, count as nat, None) == Err::<
                        (Seq<(u64, Seq<char>)>, nat),
                        DecodeError,
                    >(e));
                    assert(input@.len() >= 4);
                    assert(spec_read_map(input@) == Err::<(Seq<(u64, Seq<char>)>, nat), DecodeError>(
                        e,
                    ));
                }
                return Err(e);
            },
        };
        proof {
            lemma_le_value_bound(cur.take(8));
        }
        match prev {
            Some(p) => {
                if k <= p {
                    return Err(DecodeError::InvalidData);
                }
            },
            None => {},
        }
        let after_key = slice_subrange(input, pos + 8, len);
        proof {
            assert(after_key@ =~= cur.subrange(8, cur.len() as int));
        }
        let (text, n) = match decode_string(after_key) {
            Ok(x) => x,
            Err(e) => {
                proof {
                    assert(spec_read_string(cur.subrange(8, cur.len() as int)) == Err::<
                        (Seq<char>, nat),
                        DecodeError,
                    >(e));
                    assert(spec_read_entries(cur, (count - t) as nat, prev) == Err::<
                        (Seq<(u64, Seq<char>)>, nat),
                        DecodeError,
                    >(e));
                    assert(spec_read_entries(b, count as nat, None) == Err::<
                        (Seq<(u64, Seq<char>)>, nat),
                        DecodeError,
                    >(e));
                    assert(input@.len() >= 4);
                    assert(spec_read_map(input@) == Err::<(Seq<(u64, Seq<char>)>, nat), DecodeError>(
                        e,
                    ));
                }
                return Err(e);
            },
        };
        let ghost vv = v@;
        v.push((k, text));
        proof {
            assert(input@.subrange(pos + 8 + n, len as int) =~= cur.subrange(
                8 + n,
                cur.len() as int,
            ));
            assert(v@.map_values(|x: (u64, String)| (x.0, x.1@)) =~= vv.map_values(
                |x: (u64, String)| (x.0, x.1@),
            ).push((k, text@)));
            let tail = spec_read_entries(
                cur.subrange(8 + n, cur.len() as int),
                (count - t - 1) as nat,
                Some(k),
            );
            if let Ok((rest, m)) = tail {
                assert(vv.map_values(|x: (u64, String)| (x.0, x.1@)) + (seq![(k, text@)] + rest)
                    =~= v@.map_values(|x: (u64, String)| (x.0, x.1@)) + rest);
            }
        }
        pos = pos + 8 + n;
        prev = Some(k);
        t += 1;
    }
    proof {
        assert(v@.map_values(|x: (u64, String)| (x.0, x.1@)) + Seq::<(u64, Seq<char>)>::empty()
            =~= v@.map_values(|x: (u64, String)| (x.0, x.1@)));
    }
    Ok((v, pos))
}

/// Map entries written in the order given: each key in eight bytes, then its text.
pub open spec fn entry_list_bytes(e: Seq<(u64, Seq<char>)>) -> Seq<u8>
    decreases e.len(),
{
    if e.len() == 0 {
        Seq::empty()
    } else {
        le_bytes(e[0].0 as nat, 8) + string_bytes(e[0].1) + entry_list_bytes(e.drop_first())
    }
}

/// Each key of the list is strictly greater than the one before it, the first greater
/// than `prev` if there is one.
pub open spec fn keys_increasing_after(prev: Option<u64>, e: Seq<(u64, Seq<char>)>) -> bool
    decreases e.len(),
{
    e.len() == 0 || ((prev is None || prev->0 < e[0].0) && keys_increasing_after(
        Some(e[0].0),
        e.drop_first(),
    ))
}

/// Every text of the list fits a four-byte length prefix.
pub open spec fn texts_fit(e: Seq<(u64, Seq<char>)>) -> bool {
    forall|i: int| 0 <= i < e.len() ==> encode_utf8(#[trigger] e[i].1).len() <= u32::MAX
}

proof fn lemma_read_first_entry(k: u64, v: Seq<char>, tb: Seq<u8>)
    requires
        encode_utf8(v).len() <= u32::MAX,
    ensures
        ({
            let b = le_bytes(k as nat, 8) + (string_bytes(v) + tb);
            &&& spec_read_uint(b, 8) == Ok::<(nat, nat), DecodeError>((k as nat, 8))
            &&& spec_read_string(b.subrange(8, b.len() as int)) == Ok::<(Seq<char>, nat), DecodeError>(
                (v, string_bytes(v).len()),
            )
            &&& b.subrange(8 + string_bytes(v).len() as int, b.len() as int) == tb
        }),
{
    lemma_pow256_values();
    let sb = string_bytes(v);
    let b = le_bytes(k as nat, 8) + (sb + tb);
    lemma_uint_round_trip(k as nat, 8, sb + tb);
    lemma_le_round_trip(k as nat, 8);
    assert(b.subrange(8, b.len() as int) =~= sb + tb);
    lemma_string_round_trip(v, tb);
    assert(b.subrange(8 + sb.len() as int, b.len() as int) =~= tb);
}

#[verifier::rlimit(40)]
proof fn lemma_read_entries(e: Seq<(u64, Seq<char>)>, prev: Option<u64>, rest: Seq<u8>)
    requires
        texts_fit(e),
    ensures
        spec_read_entries(entry_list_bytes(e) + rest, e.len(), prev) == if keys_increasing_after(
            prev,
            e,
        ) {
            Ok::<(Seq<(u64, Seq<char>)>, nat), DecodeError>((e, entry_list_bytes(e).len()))
        } else {
            Err(DecodeError::InvalidData)
        },
    decreases e.len(),
{
    if e.len() == 0 {
        assert(entry_list_bytes(e) + rest =~= rest);
        assert(e =~= Seq::<(u64, Seq<char>)>::empty());
    } else {
        let k = e[0].0;
        let v = e[0].1;
        let tail = e.drop_first();
        assert(texts_fit(tail)) by {
            assert forall|i: int| 0 <= i < tail.len() implies encode_utf8(#[trigger] tail[i].1).len()
                <= u32::MAX by {
                assert(tail[i] == e[i + 1]);
            }
        }
        assert(encode_utf8(e[0].1).len() <= u32::MAX);
        let b = entry_list_bytes(e) + rest;
        let sb = string_bytes(v);
        let tb = entry_list_bytes(tail) + rest;
        assert(b =~= le_bytes(k as nat, 8) + (sb + tb));
        lemma_read_first_entry(k, v, tb);
        lemma_read_entries(tail, Some(k), rest);
        assert(seq![(k, v)] + tail =~= e);
        assert((e.len() - 1) as nat == tail.len());
        assert(entry_list_bytes(e).len() == 8 + sb.len() + entry_list_bytes(tail).len());
        if prev is Some && k <= prev->0 {
            assert(!keys_increasing_after(prev, e));
            assert(spec_read_entries(b, e.len(), prev) == Err::<
                (Seq<(u64, Seq<char>)>, nat),
                DecodeError,
            >(DecodeError::InvalidData));
        } else {
            assert(keys_increasing_after(prev, e) == keys_increasing_after(Some(k), tail));
            assert(spec_read_entries(b, e.len(), prev) == match spec_read_entries(
                tb,
                tail.len(),
                Some(k),
            ) {
                Err(x) => Err(x),
                Ok((r, m)) => Ok::<(Seq<(u64, Seq<char>)>, nat), DecodeError>(
                    (seq![(k, v)] + r, 8 + sb.len() + m),
                ),
            });
        }
    }
}

/// Reading a map back from a count and entries in strictly increasing key order, followed
/// by anything, gives those entries; entries out of that order, or a key repeated, are
/// refused as invalid, so the canonical encoding is the only one accepted.
pub proof fn lemma_map_canonical_read(e: Seq<(u64, Seq<char>)>, rest: Seq<u8>)
    requires
        e.len() <= u32::MAX,
        texts_fit(e),
    ensures
        keys_increasing_after(None, e) ==> spec_read_map(
            le_bytes(e.len(), 4) + entry_list_bytes(e) + rest,
        ) == Ok::<(Seq<(u64, Seq<char>)>, nat), DecodeError>(
            (e, 4 + entry_list_bytes(e).len()),
        ),
        !keys_increasing_after(None, e) ==> spec_read_map(
            le_bytes(e.len(), 4) + entry_list_bytes(e) + rest,
        ) == Err::<(Seq<(u64, Seq<char>)>, nat), DecodeError>(DecodeError::InvalidData),
{
    lemma_pow256_values();
    lemma_le_round_trip(e.len(), 4);
    let b = le_bytes(e.len(), 4) + entry_list_bytes(e) + rest;
    assert(b.take(4) =~= le_bytes(e.len(), 4));
    assert(b.subrange(4, b.len() as int) =~= entry_list_bytes(e) + rest);
    lemma_read_entries(e, None, rest);
}

/// Two lists of entries that stand for the same map are written to the same bytes,
/// whatever order their entries come in.
pub proof fn lemma_map_encoding_canonical(a: Seq<(u64, String)>, b: Seq<(u64, String)>)
    requires
        distinct_keys(a),
        distinct_keys(b),
        entries_view(a) == entries_view(b),
    ensures
        map_bytes(entries_view(a)) == map_bytes(entries_view(b)),
{
}

proof fn lemma_has_max(s: Set<u64>)
    requires
        s.finite(),
        s.len() > 0,
    ensures
        exists|x: u64| s.contains(x) && forall|y: u64| s.contains(y) ==> y <= x,
    decreases s.len(),
{
    let c = s.choose();
    let r = s.remove(c);
    if r.len() == 0 {
        assert forall|y: u64| s.contains(y) implies y <= c by {
            if y != c {
                assert(r.contains(y));
            }
        }
    } else {
        lemma_has_max(r);
        let m = choose|x: u64| r.contains(x) && forall|y: u64| r.contains(y) ==> y <= x;
        let top = if m < c {
            c
        } else {
            m
        };
        assert forall|y: u64| s.contains(y) implies y <= top by {
            if y != c {
                assert(r.contains(y));
            }
        }
    }
}

proof fn lemma_sorted_exists(s: Set<u64>)
    requires
        s.finite(),
    ensures
        exists|t: Seq<u64>| strictly_increasing(t) && t.to_set() == s,
    decreases s.len(),
{
    if s.len() == 0 {
        let t = Seq::<u64>::empty();
        assert(t.to_set() =~= s) by {
            assert forall|x: u64| !s.contains(x) by {
                if s.contains(x) {
                    assert(s.remove(x).len() < s.len());
                }
            }
        }
    } else {
        lemma_has_max(s);
        let x = choose|x: u64| s.contains(x) && forall|y: u64| s.contains(y) ==> y <= x;
        let r = s.remove(x);
        lemma_sorted_exists(r);
        let t = choose|t: Seq<u64>| strictly_increasing(t) && t.to_set() == r;
        let u = t.push(x);
        assert forall|i: int, j: int| 0 <= i < j < u.len() implies u[i] < u[j] by {
            if j == t.len() {
                assert(t.to_set().contains(t[i]));
            }
        }
        assert(u.to_set() =~= s) by {
            assert forall|y: u64| u.to_set().contains(y) implies s.contains(y) by {
                let i = choose|i: int| 0 <= i < u.len() && u[i] == y;
                if i < t.len() {
                    assert(t.to_set().contains(t[i]));
                }
            }
            assert forall|y: u64| s.contains(y) implies u.to_set().contains(y) by {
                if y == x {
                    assert(u[t.len() as int] == x);
                } else {
                    assert(r.contains(y));
                    let i = choose|i: int| 0 <= i < t.len() && t[i] == y;
                    assert(u[i] == y);
                }
            }
        }
    }
}

/// The entries of `m` under `keys`, in that order.
pub open spec fn entries_under(keys: Seq<u64>, m: Map<u64, Seq<char>>) -> Seq<(u64, Seq<char>)> {
    keys.map_values(|k: u64| (k, m[k]))
}

proof fn lemma_entry_list_push(a: Seq<(u64, Seq<char>)>, x: (u64, Seq<char>))
    ensures
        entry_list_bytes(a.push(x)) == entry_list_bytes(a) + le_bytes(x.0 as nat, 8)
            + string_bytes(x.1),
    decreases a.len(),
{
    if a.len() == 0 {
        let y = a.push(x);
        assert(y.drop_first() =~= Seq::<(u64, Seq<char>)>::empty());
        assert(y[0] == x);
        assert(entry_list_bytes(y.drop_first()) == Seq::<u8>::empty());
        assert(entry_list_bytes(a) == Seq::<u8>::empty());
        assert(entry_list_bytes(y) == le_bytes(x.0 as nat, 8) + string_bytes(x.1) + entry_list_bytes(
            y.drop_first(),
        ));
        assert(entry_list_bytes(a.push(x)) =~= entry_list_bytes(a) + le_bytes(x.0 as nat, 8)
            + string_bytes(x.1));
    } else {
        assert(a.push(x).drop_first() =~= a.drop_first().push(x));
        assert(a.push(x)[0] == a[0]);
        lemma_entry_list_push(a.drop_first(), x);
        assert(entry_list_bytes(a.push(x)) =~= entry_list_bytes(a) + le_bytes(x.0 as nat, 8)
            + string_bytes(x.1));
    }
}

proof fn lemma_pairs_bytes(keys: Seq<u64>, m: Map<u64, Seq<char>>)
    ensures
        pairs_bytes(keys, m) == entry_list_bytes(entries_under(keys, m)),
    decreases keys.len(),
{
    if keys.len() > 0 {
        let p = keys.drop_last();
        lemma_pairs_bytes(p, m);
        assert(entries_under(keys, m) =~= entries_under(p, m).push((keys.last(), m[keys.last()])));
        lemma_entry_list_push(entries_under(p, m), (keys.last(), m[keys.last()]));
    } else {
        assert(entries_under(keys, m) =~= Seq::<(u64, Seq<char>)>::empty());
    }
}

proof fn lemma_increasing_entries(keys: Seq<u64>, m: Map<u64, Seq<char>>, prev: Option<u64>)
    requires
        strictly_increasing(keys),
        prev is Some && keys.len() > 0 ==> prev->0 < keys[0],
    ensures
        keys_increasing_after(prev, entries_under(keys, m)),
    decreases keys.len(),
{
    if keys.len() > 0 {
        let e = entries_under(keys, m);
        assert(e.drop_first() =~= entries_under(keys.drop_first(), m));
        lemma_increasing_entries(keys.drop_first(), m, Some(keys[0]));
    }
}

/// Reading a map back from its canonical encoding, followed by anything, gives its entries
/// in increasing order of key, every one of them.
pub proof fn lemma_map_round_trip(m: Map<u64, Seq<char>>, rest: Seq<u8>)
    requires
        m.dom().finite(),
        m.dom().len() <= u32::MAX,
        forall|k: u64| m.dom().contains(k) ==> encode_utf8(#[trigger] m[k]).len() <= u32::MAX,
    ensures
        strictly_increasing(sorted_keys(m)),
        sorted_keys(m).to_set() == m.dom(),
        spec_read_map(map_bytes(m) + rest) == Ok::<(Seq<(u64, Seq<char>)>, nat), DecodeError>(
            (entries_under(sorted_keys(m), m), map_bytes(m).len()),
        ),
{
    lemma_sorted_exists(m.dom());
    let ks = sorted_keys(m);
    let e = entries_under(ks, m);
    assert(ks.no_duplicates());
    ks.unique_seq_to_set();
    lemma_pairs_bytes(ks, m);
    lemma_increasing_entries(ks, m, None);
    assert(texts_fit(e)) by {
        assert forall|i: int| 0 <= i < e.len() implies encode_utf8(#[trigger] e[i].1).len()
            <= u32::MAX by {
            assert(ks.to_set().contains(ks[i]));
        }
    }
    lemma_map_canonical_read(e, rest);
    lemma_pow256_values();
    lemma_le_round_trip(e.len(), 4);
    assert(map_bytes(m) == le_bytes(e.len(), 4) + entry_list_bytes(e));
    assert(map_bytes(m).len() == 4 + entry_list_bytes(e).len());
}

#[verifier::rlimit(40)]
proof fn lemma_read_entries_prefix(e: Seq<(u64, Seq<char>)>, prev: Option<u64>, k: int)
    requires
        texts_fit(e),
        keys_increasing_after(prev, e),
        0 <= k < entry_list_bytes(e).len(),
    ensures
        spec_read_entries(entry_list_bytes(e).take(k), e.len(), prev) == Err::<
            (Seq<(u64, Seq<char>)>, nat),
            DecodeError,
        >(DecodeError::UnexpectedEnd),
    decreases e.len(),
{
    lemma_pow256_values();
    let key = e[0].0;
    let v = e[0].1;
    let tail = e.drop_first();
    assert(texts_fit(tail)) by {
        assert forall|i: int| 0 <= i < tail.len() implies encode_utf8(#[trigger] tail[i].1).len()
            <= u32::MAX by {
            assert(tail[i] == e[i + 1]);
        }
    }
    assert(encode_utf8(v).len() <= u32::MAX);
    let sb = string_bytes(v);
    let tb = entry_list_bytes(tail);
    let b = entry_list_bytes(e).take(k);
    lemma_le_round_trip(key as nat, 8);
    lemma_le_round_trip(encode_utf8(v).len(), 4);
    assert(entry_list_bytes(e) =~= le_bytes(key as nat, 8) + (sb + tb));
    if k < 8 {
        assert(spec_read_uint(b, 8) == Err::<(nat, nat), DecodeError>(DecodeError::UnexpectedEnd));
    } else {
        assert(b.take(8) =~= le_bytes(key as nat, 8));
        assert(spec_read_uint(b, 8) == Ok::<(nat, nat), DecodeError>((key as nat, 8)));
        if k < 8 + sb.len() {
            lemma_string_round_trip(v, Seq::empty());
            assert(b.subrange(8, b.len() as int) =~= sb.take(k - 8));
            assert(spec_read_string(sb.take(k - 8)) == Err::<(Seq<char>, nat), DecodeError>(
                DecodeError::UnexpectedEnd,
            ));
        } else {
            lemma_string_round_trip(v, tb.take(k - 8 - sb.len()));
            assert(b.subrange(8, b.len() as int) =~= sb + tb.take(k - 8 - sb.len()));
            assert(b.subrange(8 + sb.len() as int, b.len() as int) =~= tb.take(k - 8 - sb.len()));
            lemma_read_entries_prefix(tail, Some(key), k - 8 - sb.len());
            assert((e.len() - 1) as nat == tail.len());
        }
    }
}

/// Reading a map from any prefix shorter than the encoding of a list of entries in
/// strictly increasing key order runs out of input.
pub proof fn lemma_map_prefix(e: Seq<(u64, Seq<char>)>, k: int)
    requires
        e.len() <= u32::MAX,
        texts_fit(e),
        keys_increasing_after(None, e),
        0 <= k < 4 + entry_list_bytes(e).len(),
    ensures
        spec_read_map((le_bytes(e.len(), 4) + entry_list_bytes(e)).take(k)) == Err::<
            (Seq<(u64, Seq<char>)>, nat),
            DecodeError,
        >(DecodeError::UnexpectedEnd),
{
    lemma_pow256_values();
    lemma_le_round_trip(e.len(), 4);
    let b = (le_bytes(e.len(), 4) + entry_list_bytes(e)).take(k);
    if k >= 4 {
        assert(b.take(4) =~= le_bytes(e.len(), 4));
        assert(b.subrange(4, b.len() as int) =~= entry_list_bytes(e).take(k - 4));
        lemma_read_entries_prefix(e, None, k - 4);
    }
}

} // verus!
