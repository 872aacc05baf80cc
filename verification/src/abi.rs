//! The contract ABI's head/tail layout for byte-string values.
//!
//! A tuple is laid out as one head per field followed by the tails of its
//! dynamic fields, in declaration order. A fixed-size byte string is its own
//! head, padded on the right with zeros to a whole number of 32-byte words. A
//! dynamic byte string has a one-word head, the offset of its tail from the
//! start of the tuple, and a tail made of a length word and the padded bytes.
//! Offsets and lengths are 32-bit quantities written big-endian into the low
//! end of a word.

use vstd::prelude::*;

verus! {

/// One field of a tuple to encode.
#[derive(Debug)]
pub enum AbiToken {
    /// A byte string of any length (`bytes`).
    Bytes(Vec<u8>),
    /// A byte string whose length is part of its type (`bytes32` and the like).
    FixedBytes(Vec<u8>),
}

/// The mathematical content of an [`AbiToken`].
pub ghost enum AbiValue {
    Bytes(Seq<u8>),
    FixedBytes(Seq<u8>),
}

impl View for AbiToken {
    type V = AbiValue;

    open spec fn view(&self) -> AbiValue {
        match self {
            AbiToken::Bytes(b) => AbiValue::Bytes(b@),
            AbiToken::FixedBytes(b) => AbiValue::FixedBytes(b@),
        }
    }
}

/// The contents of a list of tokens.
pub open spec fn values(tokens: Seq<AbiToken>) -> Seq<AbiValue> {
    Seq::new(tokens.len(), |i: int| tokens[i]@)
}

/// `n` zero bytes.
pub open spec fn zeros(n: nat) -> Seq<u8> {
    Seq::new(n, |i: int| 0u8)
}

/// The number of zero bytes that bring `len` bytes up to a whole word.
pub open spec fn padding(len: nat) -> nat {
    ((32 - len % 32) % 32) as nat
}

/// `bytes` followed by zeros up to a whole number of words.
pub open spec fn right_padded(bytes: Seq<u8>) -> Seq<u8> {
    bytes + zeros(padding(bytes.len()))
}

/// The byte of `n` that is `k` bytes above its lowest, for `k` in 0..4.
pub open spec fn byte_of(n: u32, k: int) -> u8 {
    if k == 0 {
        (n & 0xff) as u8
    } else if k == 1 {
        ((n >> 8) & 0xff) as u8
    } else if k == 2 {
        ((n >> 16) & 0xff) as u8
    } else {
        ((n >> 24) & 0xff) as u8
    }
}

/// The 32-byte word that holds `n`: big-endian, right-aligned.
pub open spec fn word(n: u32) -> Seq<u8> {
    Seq::new(
        32,
        |i: int|
            if i < 28 {
                0u8
            } else {
                byte_of(n, 31 - i)
            },
    )
}

/// The tail of a dynamic byte string: its length, then its padded bytes.
pub open spec fn bytes_tail(bytes: Seq<u8>) -> Seq<u8> {
    word(bytes.len() as u32) + right_padded(bytes)
}

/// The number of head bytes of a field.
pub open spec fn head_len(v: AbiValue) -> nat {
    match v {
        AbiValue::Bytes(_) => 32,
        AbiValue::FixedBytes(b) => right_padded(b).len(),
    }
}

/// The head of a field whose tail, if it has one, starts at `offset`.
pub open spec fn head(v: AbiValue, offset: nat) -> Seq<u8> {
    match v {
        AbiValue::Bytes(_) => word(offset as u32),
        AbiValue::FixedBytes(b) => right_padded(b),
    }
}

/// The tail of a field; empty for a fixed-size one.
pub open spec fn tail(v: AbiValue) -> Seq<u8> {
    match v {
        AbiValue::Bytes(b) => bytes_tail(b),
        AbiValue::FixedBytes(_) => Seq::empty(),
    }
}

/// The total number of head bytes of a tuple.
pub open spec fn heads_len(vs: Seq<AbiValue>) -> nat
    decreases vs.len(),
{
    if vs.len() == 0 {
        0
    } else {
        head_len(vs[0]) + heads_len(vs.drop_first())
    }
}

/// The heads of a tuple, where the first field's tail starts at `offset`.
pub open spec fn heads(vs: Seq<AbiValue>, offset: nat) -> Seq<u8>
    decreases vs.len(),
{
    if vs.len() == 0 {
        Seq::empty()
    } else {
        head(vs[0], offset) + heads(vs.drop_first(), offset + tail(vs[0]).len())
    }
}

/// The tails of a tuple, in field order.
pub open spec fn tails(vs: Seq<AbiValue>) -> Seq<u8>
    decreases vs.len(),
{
    if vs.len() == 0 {
        Seq::empty()
    } else {
        tail(vs[0]) + tails(vs.drop_first())
    }
}

/// The encoding of a tuple: all heads, then all tails.
pub open spec fn layout(vs: Seq<AbiValue>) -> Seq<u8> {
    heads(vs, heads_len(vs)) + tails(vs)
}

/// An encoding of `size` bytes is within the encoder's limits: it computes
/// offsets in 32 bits, and reserves room for one 32-byte word per byte of
/// output before it writes anything.
pub open spec fn encodable(size: nat) -> bool {
    size <= u32::MAX && size <= usize::MAX / 64
}

/// Whether an encoding of `size` bytes is within the encoder's limits.
pub fn is_encodable(size: u64) -> (fits: bool)
    ensures
        fits == encodable(size as nat),
{
    size <= 0xffff_ffff && size <= (usize::MAX / 64) as u64
}

/// Calls `ethers::abi::encode` (the `encode` of `ethabi`, which `ethers`
/// hands on) with the tokens, each as the variant of the same name.
///
/// Trusted: the result is claimed to be the head/tail layout of the tuple, as
/// [`layout`] spells it out for these two kinds of field. The encoder adds
/// up offsets and lengths in 32 bits and reserves its buffer by the byte
/// count taken as a word count, so the claim is made only for tuples whose
/// encoding is [`encodable`].
#[verifier::external_body]
pub(crate) fn encode_tokens(tokens: &Vec<AbiToken>) -> (encoded: Vec<u8>)
    requires
        encodable(layout(values(tokens@)).len()),
    ensures
        encoded@ == layout(values(tokens@)),
{
    let mut outside: Vec<ethers::abi::Token> = Vec::with_capacity(tokens.len());
    for token in tokens.iter() {
        outside.push(
            match token {
                AbiToken::Bytes(b) => ethers::abi::Token::Bytes(b.clone()),
                AbiToken::FixedBytes(b) => ethers::abi::Token::FixedBytes(b.clone()),
            },
        );
    }
    ethers::abi::encode(&outside)
}

/// Different numbers have different words.
pub proof fn lemma_word_injective(a: u32, b: u32)
    requires
        word(a) == word(b),
    ensures
        a == b,
{
    assert(word(a)[31] == byte_of(a, 0) && word(b)[31] == byte_of(b, 0));
    assert(word(a)[30] == byte_of(a, 1) && word(b)[30] == byte_of(b, 1));
    assert(word(a)[29] == byte_of(a, 2) && word(b)[29] == byte_of(b, 2));
    assert(word(a)[28] == byte_of(a, 3) && word(b)[28] == byte_of(b, 3));
    assert(((a & 0xff) as u8 == (b & 0xff) as u8 && ((a >> 8) & 0xff) as u8 == ((b >> 8)
        & 0xff) as u8 && ((a >> 16) & 0xff) as u8 == ((b >> 16) & 0xff) as u8 && ((a >> 24)
        & 0xff) as u8 == ((b >> 24) & 0xff) as u8) ==> a == b) by (bit_vector);
}

/// The layout of a two-field tuple, written out.
pub proof fn lemma_layout_two(a: AbiValue, b: AbiValue)
    ensures
        layout(seq![a, b]) == {
            let h = head_len(a) + head_len(b);
            head(a, h) + head(b, h + tail(a).len()) + tail(a) + tail(b)
        },
{
    let vs = seq![a, b];
    let vs1 = seq![b];
    let vs2 = Seq::<AbiValue>::empty();
    assert(vs.drop_first() =~= vs1);
    assert(vs1.drop_first() =~= vs2);
    reveal_with_fuel(heads_len, 3);
    reveal_with_fuel(heads, 3);
    reveal_with_fuel(tails, 3);
    let h = head_len(a) + head_len(b);
    assert(heads_len(vs) == h);
    assert(layout(vs) =~= head(a, h) + head(b, h + tail(a).len()) + tail(a) + tail(b));
}

/// The layout of a three-field tuple, written out.
pub proof fn lemma_layout_three(a: AbiValue, b: AbiValue, c: AbiValue)
    ensures
        layout(seq![a, b, c]) == {
            let h = head_len(a) + head_len(b) + head_len(c);
            head(a, h) + head(b, h + tail(a).len()) + head(
                c,
                h + tail(a).len() + tail(b).len(),
            ) + tail(a) + tail(b) + tail(c)
        },
{
    let vs = seq![a, b, c];
    let vs1 = seq![b, c];
    let vs2 = seq![c];
    let vs3 = Seq::<AbiValue>::empty();
    assert(vs.drop_first() =~= vs1);
    assert(vs1.drop_first() =~= vs2);
    assert(vs2.drop_first() =~= vs3);
    reveal_with_fuel(heads_len, 4);
    reveal_with_fuel(heads, 4);
    reveal_with_fuel(tails, 4);
    let h = head_len(a) + head_len(b) + head_len(c);
    assert(heads_len(vs) == h);
    assert(layout(vs) =~= head(a, h) + head(b, h + tail(a).len()) + head(
        c,
        h + tail(a).len() + tail(b).len(),
    ) + tail(a) + tail(b) + tail(c));
}

} // verus!
