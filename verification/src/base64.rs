//! Base64 decoding of the ESC/POS ticket resources.
//!
//! The decoder skips ASCII whitespace, stops at the first `=` and turns the
//! remaining symbols, six bits each, into bytes; trailing bits that do not
//! fill a byte are dropped. Any other character before the first `=` is an
//! error that names the offending byte.
use vstd::prelude::*;
use vstd::string::StringSliceAdditionalSpecFns;
use vstd::string::StringExecFns;
use crate::strings::push_char;

verus! {

/// The six-bit value of a Base64 symbol of the standard alphabet.
pub open spec fn symbol_value(b: u8) -> Option<u8> {
    if 65 <= b <= 90 {
        Some((b - 65) as u8)
    } else if 97 <= b <= 122 {
        Some((b - 97 + 26) as u8)
    } else if 48 <= b <= 57 {
        Some((b - 48 + 52) as u8)
    } else if b == 43 {
        Some(62)
    } else if b == 47 {
        Some(63)
    } else {
        None
    }
}

/// ASCII whitespace as `u8::is_ascii_whitespace` defines it:
/// space, tab, line feed, form feed and carriage return.
pub open spec fn is_ascii_space(b: u8) -> bool {
    b == 32 || b == 9 || b == 10 || b == 12 || b == 13
}

/// The padding byte `=`.
pub open spec fn is_pad(b: u8) -> bool {
    b == 61
}

/// The bytes before the first `=` (all of them when there is none).
pub open spec fn payload(bytes: Seq<u8>) -> Seq<u8>
    decreases bytes.len(),
{
    if bytes.len() == 0 || is_pad(bytes[0]) {
        seq![]
    } else {
        seq![bytes[0]].add(payload(bytes.drop_first()))
    }
}

/// The six-bit values of the non-whitespace bytes of `p`, in order, or the
/// first byte of `p` that is neither whitespace nor a Base64 symbol.
pub open spec fn sextets(p: Seq<u8>) -> Result<Seq<u8>, u8>
    decreases p.len(),
{
    if p.len() == 0 {
        Ok(seq![])
    } else {
        match sextets(p.drop_last()) {
            Err(b) => Err(b),
            Ok(s) => {
                let c = p.last();
                if is_ascii_space(c) {
                    Ok(s)
                } else {
                    match symbol_value(c) {
                        Some(v) => Ok(s.push(v)),
                        None => Err(c),
                    }
                }
            },
        }
    }
}

/// First byte of a group: six bits of `a`, then the two high bits of `b`.
pub open spec fn first_byte(a: u8, b: u8) -> u8 {
    (a << 2u8) | (b >> 4u8)
}

/// Second byte of a group: low four bits of `b`, high four bits of `c`.
pub open spec fn second_byte(b: u8, c: u8) -> u8 {
    (b << 4u8) | (c >> 2u8)
}

/// Third byte of a group: low two bits of `c`, then the six bits of `d`.
pub open spec fn third_byte(c: u8, d: u8) -> u8 {
    (c << 6u8) | d
}

/// The bytes that a sequence of six-bit values stands for: each group of
/// four values gives three bytes, a final group of three gives two, a final
/// group of two gives one, and a single left-over value gives none.
pub open spec fn bytes_of_sextets(v: Seq<u8>) -> Seq<u8>
    decreases v.len(),
{
    if v.len() >= 4 {
        seq![first_byte(v[0], v[1]), second_byte(v[1], v[2]), third_byte(v[2], v[3])].add(
            bytes_of_sextets(v.skip(4)),
        )
    } else if v.len() == 3 {
        seq![first_byte(v[0], v[1]), second_byte(v[1], v[2])]
    } else if v.len() == 2 {
        seq![first_byte(v[0], v[1])]
    } else {
        seq![]
    }
}

/// The error text for a byte that is not part of the alphabet; the byte is
/// shown as the character with the same code.
pub open spec fn invalid_symbol_message(b: u8) -> Seq<char> {
    "Caracter Base64 invalido: "@.push(b as char)
}

/// What decoding `bytes` yields.
pub open spec fn base64_decoding(bytes: Seq<u8>) -> Result<Seq<u8>, Seq<char>> {
    match sextets(payload(bytes)) {
        Ok(v) => Ok(bytes_of_sextets(v)),
        Err(b) => Err(invalid_symbol_message(b)),
    }
}

/// The six-bit value of a Base64 symbol, `None` for any other byte.
pub fn base64_value(byte: u8) -> (r: Option<u8>)
    ensures
        r == symbol_value(byte),
{
    if 65 <= byte && byte <= 90 {
        Some(byte - 65)
    } else if 97 <= byte && byte <= 122 {
        Some(byte - 97 + 26)
    } else if 48 <= byte && byte <= 57 {
        Some(byte - 48 + 52)
    } else if byte == 43 {
        Some(62)
    } else if byte == 47 {
        Some(63)
    } else {
        None
    }
}

/// How the decoder's bit buffer relates to the values read so far: after
/// `n` values the buffer holds the bits of the last value that do not yet
/// fill a byte.
pub open spec fn pending_bits(vals: Seq<u8>, buffer: u32, bits: u32) -> bool {
    let r = vals.len() % 4;
    if r == 0 {
        bits == 0 && buffer == 0
    } else if r == 1 {
        bits == 6 && buffer == vals.last() as u32
    } else if r == 2 {
        bits == 4 && buffer == (vals.last() & 15u8) as u32
    } else {
        bits == 2 && buffer == (vals.last() & 3u8) as u32
    }
}

pub open spec fn all_sextets(vals: Seq<u8>) -> bool {
    forall|j: int| 0 <= j < vals.len() ==> #[trigger] vals[j] < 64
}

proof fn lemma_symbol_value_range(b: u8)
    ensures
        symbol_value(b) matches Some(v) ==> v < 64,
{
}

/// Appending one value to `vals` appends the bytes that this value completes.
proof fn lemma_bytes_of_sextets_push(vals: Seq<u8>, x: u8)
    ensures
        bytes_of_sextets(vals.push(x)) == bytes_of_sextets(vals) + (if vals.len() % 4 == 0 {
            seq![]
        } else if vals.len() % 4 == 1 {
            seq![first_byte(vals.last(), x)]
        } else if vals.len() % 4 == 2 {
            seq![second_byte(vals.last(), x)]
        } else {
            seq![third_byte(vals.last(), x)]
        }),
    decreases vals.len(),
{
    let w = vals.push(x);
    if vals.len() >= 4 {
        lemma_bytes_of_sextets_push(vals.skip(4), x);
        assert(w.skip(4) =~= vals.skip(4).push(x));
        assert(vals.skip(4).len() % 4 == vals.len() % 4);
        if vals.len() % 4 != 0 {
            assert(vals.skip(4).last() == vals.last());
        }
        let group = seq![
            first_byte(vals[0], vals[1]),
            second_byte(vals[1], vals[2]),
            third_byte(vals[2], vals[3]),
        ];
        assert(bytes_of_sextets(w) =~= group + bytes_of_sextets(w.skip(4)));
    } else if vals.len() == 3 {
        let group = seq![first_byte(w[0], w[1]), second_byte(w[1], w[2]), third_byte(w[2], w[3])];
        assert(w.skip(4) =~= Seq::<u8>::empty());
        assert(bytes_of_sextets(w) =~= group + bytes_of_sextets(w.skip(4)));
    }
}

/// A byte sequence without `=` up to `k` keeps its first `k` bytes in the
/// payload.
proof fn lemma_payload_split(bytes: Seq<u8>, k: int)
    requires
        0 <= k <= bytes.len(),
        forall|j: int| 0 <= j < k ==> !is_pad(#[trigger] bytes[j]),
    ensures
        payload(bytes) == bytes.take(k) + payload(bytes.skip(k)),
    decreases k,
{
    if k == 0 {
        assert(bytes.skip(0) =~= bytes);
        assert(bytes.take(0) + payload(bytes.skip(0)) =~= payload(bytes));
    } else {
        let rest = bytes.drop_first();
        assert forall|j: int| 0 <= j < k - 1 implies !is_pad(#[trigger] rest[j]) by {
            assert(rest[j] == bytes[j + 1]);
        }
        lemma_payload_split(rest, k - 1);
        assert(rest.skip(k - 1) =~= bytes.skip(k));
        assert(seq![bytes[0]] + rest.take(k - 1) =~= bytes.take(k));
        assert(!is_pad(bytes[0]));
    }
}

/// Once a byte is refused, what follows cannot change the error.
proof fn lemma_sextets_error_extends(p: Seq<u8>, q: Seq<u8>)
    requires
        sextets(p) is Err,
    ensures
        sextets(p + q) == sextets(p),
    decreases q.len(),
{
    if q.len() == 0 {
        assert(p + q =~= p);
    } else {
        lemma_sextets_error_extends(p, q.drop_last());
        assert((p + q).drop_last() =~= p + q.drop_last());
    }
}

proof fn lemma_sextets_range(p: Seq<u8>)
    ensures
        sextets(p) matches Ok(v) ==> all_sextets(v),
    decreases p.len(),
{
    if p.len() > 0 {
        lemma_sextets_range(p.drop_last());
        lemma_symbol_value_range(p.last());
    }
}

/// The symbol of the standard alphabet for a six-bit value.
pub open spec fn symbol_of(v: u8) -> u8 {
    if v < 26 {
        (v + 65) as u8
    } else if v < 52 {
        (v - 26 + 97) as u8
    } else if v < 62 {
        (v - 52 + 48) as u8
    } else if v == 62 {
        43
    } else {
        47
    }
}

/// The six-bit values that encode `data`: four for each group of three
/// bytes, three for a final pair and two for a final single byte.
pub open spec fn encoding_sextets(data: Seq<u8>) -> Seq<u8>
    decreases data.len(),
{
    if data.len() >= 3 {
        let (a, b, c) = (data[0], data[1], data[2]);
        seq![a >> 2u8, ((a & 3u8) << 4u8) | (b >> 4u8), ((b & 15u8) << 2u8) | (c >> 6u8), c & 63u8]
            + encoding_sextets(data.skip(3))
    } else if data.len() == 2 {
        let (a, b) = (data[0], data[1]);
        seq![a >> 2u8, ((a & 3u8) << 4u8) | (b >> 4u8), (b & 15u8) << 2u8]
    } else if data.len() == 1 {
        let a = data[0];
        seq![a >> 2u8, (a & 3u8) << 4u8]
    } else {
        seq![]
    }
}

/// The symbols for a sequence of six-bit values.
pub open spec fn symbols_of(vals: Seq<u8>) -> Seq<u8> {
    vals.map_values(|v: u8| symbol_of(v))
}

/// The `=` padding that completes the last group of four symbols.
pub open spec fn padding_for(len: nat) -> Seq<u8> {
    if len % 3 == 1 {
        seq![61u8, 61u8]
    } else if len % 3 == 2 {
        seq![61u8]
    } else {
        seq![]
    }
}

/// Standard Base64 (RFC 4648) with `=` padding.
pub open spec fn base64_encoding(data: Seq<u8>) -> Seq<u8> {
    symbols_of(encoding_sextets(data)) + padding_for(data.len())
}

proof fn lemma_encoding_sextets_range(data: Seq<u8>)
    ensures
        all_sextets(encoding_sextets(data)),
    decreases data.len(),
{
    if data.len() >= 3 {
        lemma_encoding_sextets_range(data.skip(3));
        let (a, b, c) = (data[0], data[1], data[2]);
        assert(a >> 2u8 < 64 && ((a & 3u8) << 4u8) | (b >> 4u8) < 64
            && ((b & 15u8) << 2u8) | (c >> 6u8) < 64 && c & 63u8 < 64) by (bit_vector);
        let e = encoding_sextets(data);
        let head = seq![a >> 2u8, ((a & 3u8) << 4u8) | (b >> 4u8), ((b & 15u8) << 2u8) | (c >> 6u8), c & 63u8];
        assert forall|j: int| 0 <= j < e.len() implies #[trigger] e[j] < 64 by {
            if j >= 4 {
                assert(e[j] == encoding_sextets(data.skip(3))[j - 4]);
            } else {
                assert(e[j] == head[j]);
            }
        }
    } else if data.len() == 2 {
        let (a, b) = (data[0], data[1]);
        assert(a >> 2u8 < 64 && ((a & 3u8) << 4u8) | (b >> 4u8) < 64 && (b & 15u8) << 2u8 < 64)
            by (bit_vector);
    } else if data.len() == 1 {
        let a = data[0];
        assert(a >> 2u8 < 64 && (a & 3u8) << 4u8 < 64) by (bit_vector);
    }
}

proof fn lemma_symbol_roundtrip(v: u8)
    requires
        v < 64,
    ensures
        symbol_value(symbol_of(v)) == Some(v),
        !is_ascii_space(symbol_of(v)),
        !is_pad(symbol_of(v)),
{
}

/// The values read back from the symbols of `vals` are `vals`.
proof fn lemma_sextets_of_symbols(vals: Seq<u8>)
    requires
        all_sextets(vals),
    ensures
        sextets(symbols_of(vals)) == Ok::<Seq<u8>, u8>(vals),
    decreases vals.len(),
{
    if vals.len() > 0 {
        let s = symbols_of(vals);
        let init = vals.drop_last();
        assert(s.drop_last() =~= symbols_of(init));
        assert forall|j: int| 0 <= j < init.len() implies #[trigger] init[j] < 64 by {
            assert(init[j] == vals[j]);
        }
        lemma_sextets_of_symbols(init);
        lemma_symbol_roundtrip(vals.last());
        assert(s.len() == vals.len());
        assert(s.last() == symbol_of(vals.last()));
        assert(init.push(vals.last()) =~= vals);
        assert(sextets(s.drop_last()) == Ok::<Seq<u8>, u8>(init));
        assert(sextets(s) == Ok::<Seq<u8>, u8>(init.push(vals.last())));
    } else {
        assert(symbols_of(vals) =~= Seq::<u8>::empty());
        assert(vals =~= Seq::<u8>::empty());
    }
}

/// The bytes of the values that encode `data` are `data`.
proof fn lemma_bytes_of_encoding_sextets(data: Seq<u8>)
    ensures
        bytes_of_sextets(encoding_sextets(data)) == data,
    decreases data.len(),
{
    let e = encoding_sextets(data);
    if data.len() >= 3 {
        let (a, b, c) = (data[0], data[1], data[2]);
        lemma_bytes_of_encoding_sextets(data.skip(3));
        let head = seq![a >> 2u8, ((a & 3u8) << 4u8) | (b >> 4u8), ((b & 15u8) << 2u8) | (c >> 6u8), c & 63u8];
        assert(e.skip(4) =~= encoding_sextets(data.skip(3)));
        assert(e[0] == head[0] && e[1] == head[1] && e[2] == head[2] && e[3] == head[3]);
        assert(first_byte(a >> 2u8, ((a & 3u8) << 4u8) | (b >> 4u8)) == a
            && second_byte(((a & 3u8) << 4u8) | (b >> 4u8), ((b & 15u8) << 2u8) | (c >> 6u8)) == b
            && third_byte(((b & 15u8) << 2u8) | (c >> 6u8), c & 63u8) == c) by (bit_vector);
        assert(seq![a, b, c] + data.skip(3) =~= data);
    } else if data.len() == 2 {
        let (a, b) = (data[0], data[1]);
        assert(first_byte(a >> 2u8, ((a & 3u8) << 4u8) | (b >> 4u8)) == a
            && second_byte(((a & 3u8) << 4u8) | (b >> 4u8), (b & 15u8) << 2u8) == b) by (bit_vector);
        assert(seq![a, b] =~= data);
    } else if data.len() == 1 {
        let a = data[0];
        assert(first_byte(a >> 2u8, (a & 3u8) << 4u8) == a) by (bit_vector);
        assert(seq![a] =~= data);
    } else {
        assert(data =~= Seq::<u8>::empty());
    }
}

/// Decoding undoes encoding: for every byte sequence `data`, decoding its
/// standard padded Base64 text gives back exactly `data`.
pub proof fn lemma_decoding_inverts_encoding(data: Seq<u8>)
    ensures
        base64_decoding(base64_encoding(data)) == Ok::<Seq<u8>, Seq<char>>(data),
{
    let vals = encoding_sextets(data);
    let syms = symbols_of(vals);
    let text = base64_encoding(data);
    lemma_encoding_sextets_range(data);
    assert forall|j: int| 0 <= j < syms.len() implies !is_pad(#[trigger] text[j]) by {
        assert(text[j] == syms[j]);
        lemma_symbol_roundtrip(vals[j]);
    }
    lemma_payload_split(text, syms.len() as int);
    assert(text.take(syms.len() as int) =~= syms);
    assert(text.skip(syms.len() as int) =~= padding_for(data.len()));
    assert(payload(padding_for(data.len())) =~= Seq::<u8>::empty());
    assert(syms + Seq::<u8>::empty() =~= syms);
    lemma_sextets_of_symbols(vals);
    lemma_bytes_of_encoding_sextets(data);
}

/// The payload is the prefix of the input up to the first `=`.
proof fn lemma_payload_shape(bytes: Seq<u8>)
    ensures
        payload(bytes).len() <= bytes.len(),
        payload(bytes) == bytes.take(payload(bytes).len() as int),
        forall|j: int| 0 <= j < payload(bytes).len() ==> !is_pad(#[trigger] bytes[j]),
        payload(bytes).len() < bytes.len() ==> is_pad(bytes[payload(bytes).len() as int]),
    decreases bytes.len(),
{
    if bytes.len() == 0 || is_pad(bytes[0]) {
        assert(bytes.take(0) =~= Seq::<u8>::empty());
    } else {
        let rest = bytes.drop_first();
        lemma_payload_shape(rest);
        let m = payload(rest).len() as int;
        assert(payload(bytes) =~= bytes.take(m + 1));
        assert forall|j: int| 0 <= j < m + 1 implies !is_pad(#[trigger] bytes[j]) by {
            if j > 0 {
                assert(bytes[j] == rest[j - 1]);
            }
        }
        if m + 1 < bytes.len() {
            assert(bytes[m + 1] == rest[m as int]);
        }
    }
}

/// A whitespace byte inside the text read so far changes nothing.
proof fn lemma_sextets_skip_space(a: Seq<u8>, c: Seq<u8>, w: u8)
    requires
        is_ascii_space(w),
    ensures
        sextets(a.push(w) + c) == sextets(a + c),
    decreases c.len(),
{
    if c.len() == 0 {
        assert(a.push(w) + c =~= a.push(w));
        assert(a + c =~= a);
        assert(a.push(w).drop_last() =~= a);
    } else {
        lemma_sextets_skip_space(a, c.drop_last(), w);
        assert((a.push(w) + c).drop_last() =~= a.push(w) + c.drop_last());
        assert((a + c).drop_last() =~= a + c.drop_last());
    }
}

/// ASCII whitespace anywhere in the input does not change what is decoded:
/// inserting a space, tab, line feed, form feed or carriage return at any
/// position gives the same bytes, or the same error.
pub proof fn lemma_decoding_ignores_whitespace(bytes: Seq<u8>, k: int, w: u8)
    requires
        0 <= k <= bytes.len(),
        is_ascii_space(w),
    ensures
        base64_decoding(bytes.take(k).push(w) + bytes.skip(k)) == base64_decoding(bytes),
{
    let n = bytes.take(k).push(w) + bytes.skip(k);
    lemma_payload_shape(bytes);
    let p = payload(bytes);
    let m = p.len() as int;
    if k <= m {
        assert forall|j: int| 0 <= j < m + 1 implies !is_pad(#[trigger] n[j]) by {
            if j < k {
                assert(n[j] == bytes[j]);
            } else if j > k {
                assert(n[j] == bytes[j - 1]);
            }
        }
        lemma_payload_split(n, m + 1);
        assert(n.skip(m + 1) =~= bytes.skip(m));
        if m < bytes.len() {
            assert(bytes.skip(m)[0] == bytes[m]);
        }
        assert(payload(bytes.skip(m)) =~= Seq::<u8>::empty());
        assert(payload(n) =~= p.take(k).push(w) + p.skip(k));
        lemma_sextets_skip_space(p.take(k), p.skip(k), w);
        assert(p.take(k) + p.skip(k) =~= p);
    } else {
        assert forall|j: int| 0 <= j < m implies !is_pad(#[trigger] n[j]) by {
            assert(n[j] == bytes[j]);
        }
        lemma_payload_split(n, m);
        assert(n.skip(m)[0] == bytes[m]);
        assert(payload(n.skip(m)) =~= Seq::<u8>::empty());
        assert(payload(n) =~= p);
    }
}

/// Decodes Base64 text: ASCII whitespace is skipped, decoding stops at the
/// first `=`, and a byte outside the alphabet before it is reported.
pub fn decode_base64(input: &str) -> (r: Result<Vec<u8>, String>)
    ensures
        match r {
            Ok(out) => base64_decoding(input.spec_bytes()) == Ok::<Seq<u8>, Seq<char>>(out@),
            Err(msg) => base64_decoding(input.spec_bytes()) == Err::<Seq<u8>, Seq<char>>(msg@),
        },
{
    decode_base64_bytes(input.as_bytes())
}

/// Decodes Base64 given as bytes; see [`decode_base64`].
pub fn decode_base64_bytes(bytes: &[u8]) -> (r: Result<Vec<u8>, String>)
    ensures
        match r {
            Ok(out) => base64_decoding(bytes@) == Ok::<Seq<u8>, Seq<char>>(out@),
            Err(msg) => base64_decoding(bytes@) == Err::<Seq<u8>, Seq<char>>(msg@),
        },
{
    let mut output: Vec<u8> = Vec::new();
    let mut buffer: u32 = 0;
    let mut bits: u32 = 0;
    let mut i: usize = 0;
    let ghost mut vals: Seq<u8> = seq![];
    while i < bytes.len() && bytes[i] != 61
        invariant
            0 <= i <= bytes.len(),
            forall|j: int| 0 <= j < i ==> !is_pad(#[trigger] bytes@[j]),
            sextets(bytes@.take(i as int)) == Ok::<Seq<u8>, u8>(vals),
            all_sextets(vals),
            output@ == bytes_of_sextets(vals),
            pending_bits(vals, buffer, bits),
        decreases bytes.len() - i,
    {
        let byte = bytes[i];
        assert(bytes@.take(i + 1).drop_last() =~= bytes@.take(i as int));
        assert(bytes@.take(i + 1).last() == byte);
        if byte == 32 || byte == 9 || byte == 10 || byte == 12 || byte == 13 {
        } else {
            match base64_value(byte) {
                None => {
                    let mut msg = String::from_str("Caracter Base64 invalido: ");
                    push_char(&mut msg, byte as char);
                    proof {
                        let k = i + 1;
                        assert forall|j: int| 0 <= j < k implies !is_pad(#[trigger] bytes@[j]) by {}
                        lemma_payload_split(bytes@, k as int);
                        lemma_sextets_error_extends(bytes@.take(k as int), payload(bytes@.skip(k as int)));
                    }
                    return Err(msg);
                },
                Some(value) => {
                    proof {
                        lemma_symbol_value_range(byte);
                        lemma_bytes_of_sextets_push(vals, value);
                    }
                    let ghost prev = vals;
                    let ghost old_buffer = buffer;
                    buffer = (buffer << 6u32) | (value as u32);
                    bits = bits + 6;
                    if bits >= 8 {
                        bits = bits - 8;
                        output.push(((buffer >> bits) & 255u32) as u8);
                        proof {
                            assert((1u32 << 4u32) == 16u32 && (1u32 << 2u32) == 4u32
                                && (1u32 << 0u32) == 1u32) by (bit_vector);
                        }
                        buffer = buffer & ((1u32 << bits) - 1);
                    }
                    proof {
                        vals = prev.push(value);
                        let r = prev.len() % 4;
                        let x = value;
                        if r == 0 {
                            assert(old_buffer == 0);
                            assert(((0u32 << 6u32) | (x as u32)) == x as u32) by (bit_vector);
                        } else if r == 1 {
                            let a = prev.last();
                            assert(a < 64);
                            assert(((((((a as u32) << 6u32) | (x as u32)) >> 4u32) & 255u32) as u8)
                                == ((a << 2u8) | (x >> 4u8))
                                && ((((a as u32) << 6u32) | (x as u32)) & 15u32)
                                == ((x & 15u8) as u32)) by (bit_vector)
                                requires a < 64, x < 64;
                        } else if r == 2 {
                            let a = prev.last();
                            let b = (a & 15u8) as u32;
                            assert(a < 64);
                            assert(((((b << 6u32) | (x as u32)) >> 2u32) & 255u32) as u8
                                == ((a << 4u8) | (x >> 2u8))
                                && (((b << 6u32) | (x as u32)) & 3u32)
                                == ((x & 3u8) as u32)) by (bit_vector)
                                requires a < 64, x < 64, b == (a & 15u8) as u32;
                        } else {
                            let a = prev.last();
                            let b = (a & 3u8) as u32;
                            assert(a < 64);
                            assert(((((b << 6u32) | (x as u32)) >> 0u32) & 255u32) as u8
                                == ((a << 6u8) | x)
                                && (((b << 6u32) | (x as u32)) & 0u32) == 0u32)
                                by (bit_vector)
                                requires a < 64, x < 64, b == (a & 3u8) as u32;
                        }
                        assert(vals.last() == x);
                        assert forall|j: int| 0 <= j < vals.len() implies #[trigger] vals[j] < 64 by {
                            if j < prev.len() {
                                assert(vals[j] == prev[j]);
                            }
                        }
                    }
                },
            }
        }
        i += 1;
    }
    proof {
        lemma_payload_split(bytes@, i as int);
        if i < bytes.len() {
            assert(is_pad(bytes@.skip(i as int)[0]));
        }
        assert(payload(bytes@.skip(i as int)) =~= Seq::<u8>::empty());
        assert(bytes@.take(i as int) + Seq::<u8>::empty() =~= bytes@.take(i as int));
    }
    Ok(output)
}

} // verus!
