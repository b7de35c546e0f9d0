//! The save-state byte format: the three unit-cell dimensions as
//! little-endian machine words, followed by the spin components as
//! four-byte little-endian words.
use vstd::prelude::*;

verus! {

/// Bytes in a machine word (`usize`).
pub open spec fn word_bytes() -> nat {
    (usize::BITS / 8) as nat
}

/// The `width` little-endian bytes of `x` (the low `width` bytes).
pub open spec fn le_bytes(x: nat, width: nat) -> Seq<u8>
    decreases width,
{
    if width == 0 {
        Seq::empty()
    } else {
        seq![(x % 256) as u8] + le_bytes(x / 256, (width - 1) as nat)
    }
}

/// The number that little-endian bytes encode.
pub open spec fn le_value(bytes: Seq<u8>) -> nat
    decreases bytes.len(),
{
    if bytes.len() == 0 {
        0
    } else {
        bytes[0] as nat + 256 * le_value(bytes.drop_first())
    }
}

/// `2^(8 * width)`, the number of values that `width` bytes can hold.
pub open spec fn byte_range(width: nat) -> nat
    decreases width,
{
    if width == 0 { 1 } else { 256 * byte_range((width - 1) as nat) }
}

/// Decoding the little-endian bytes of a value gives the value back, where
/// it fits in the width.
pub proof fn lemma_le_roundtrip(x: nat, width: nat)
    requires
        x < byte_range(width),
    ensures
        le_bytes(x, width).len() == width,
        le_value(le_bytes(x, width)) == x,
    decreases width,
{
    if width > 0 {
        let q = x / 256;
        assert(q < byte_range((width - 1) as nat)) by (nonlinear_arith)
            requires x < 256 * byte_range((width - 1) as nat), q == x / 256;
        lemma_le_roundtrip(q, (width - 1) as nat);
        let b = le_bytes(x, width);
        assert(b.drop_first() =~= le_bytes(q, (width - 1) as nat));
    }
}

/// The value of `width` bytes is below `byte_range(width)`.
pub proof fn lemma_le_value_bound(bytes: Seq<u8>)
    ensures
        le_value(bytes) < byte_range(bytes.len()),
    decreases bytes.len(),
{
    if bytes.len() > 0 {
        lemma_le_value_bound(bytes.drop_first());
        let r = byte_range((bytes.len() - 1) as nat);
        assert(bytes[0] as nat + 256 * le_value(bytes.drop_first()) < 256 * r) by (nonlinear_arith)
            requires bytes[0] < 256, le_value(bytes.drop_first()) < r;
    }
}

/// A machine word holds every value below `2^usize::BITS`.
pub proof fn lemma_word_range()
    ensures
        word_bytes() == 4 || word_bytes() == 8,
        byte_range(word_bytes()) == usize::MAX + 1,
{
    reveal_with_fuel(byte_range, 9);
    assert(usize::BITS == 32 || usize::BITS == 64);
    if usize::BITS == 32 {
        assert(usize::MAX == 0xffff_ffff);
    } else {
        assert(usize::MAX == 0xffff_ffff_ffff_ffff);
    }
}

/// The bytes of a sequence of four-byte words, concatenated in order.
pub open spec fn flatten_words(words: Seq<[u8; 4]>) -> Seq<u8>
    decreases words.len(),
{
    if words.len() == 0 {
        Seq::empty()
    } else {
        flatten_words(words.drop_last()) + words.last()@
    }
}

/// The saved form of a state: each dimension as a little-endian machine
/// word, then the spin words.
pub open spec fn state_bytes(uc_dims: [usize; 3], words: Seq<[u8; 4]>) -> Seq<u8> {
    le_bytes(uc_dims[0] as nat, word_bytes())
        + le_bytes(uc_dims[1] as nat, word_bytes())
        + le_bytes(uc_dims[2] as nat, word_bytes())
        + flatten_words(words)
}

/// `byte_range` grows with the width.
pub proof fn lemma_byte_range_monotonic(a: nat, b: nat)
    requires
        a <= b,
    ensures
        1 <= byte_range(a) <= byte_range(b),
    decreases b,
{
    if b > 0 {
        if a < b {
            lemma_byte_range_monotonic(a, (b - 1) as nat);
        } else {
            lemma_byte_range_monotonic((b - 1) as nat, (b - 1) as nat);
        }
    }
}

/// The three unit-cell dimensions and the spin words that `bytes` holds.
pub open spec fn decodes_to(bytes: Seq<u8>, uc_dims: [usize; 3], words: Seq<[u8; 4]>) -> bool {
    let w = word_bytes() as int;
    &&& bytes.len() == 3 * w + 4 * words.len()
    &&& forall|i: int| 0 <= i < 3 ==> le_value(#[trigger] bytes.subrange(i * w, (i + 1) * w)) == uc_dims[i] as nat
    &&& forall|k: int| 0 <= k < words.len() ==>
            bytes.subrange(3 * w + 4 * k, 3 * w + 4 * k + 4) == (#[trigger] words[k])@
}

/// Appends the little-endian machine-word bytes of `x`.
fn push_word(out: &mut Vec<u8>, x: usize)
    ensures
        final(out)@ == old(out)@ + le_bytes(x as nat, word_bytes()),
{
    proof {
        lemma_word_range();
    }
    let width: usize = (usize::BITS / 8) as usize;
    let mut v: usize = x;
    let mut k: usize = 0;
    assert(old(out)@ + le_bytes(x as nat, word_bytes()) == out@ + le_bytes(v as nat, (width - k) as nat));
    while k < width
        invariant
            width == word_bytes(),
            k <= width,
            old(out)@ + le_bytes(x as nat, word_bytes()) == out@ + le_bytes(v as nat, (width - k) as nat),
        decreases width - k,
    {
        let ghost rest = le_bytes(v as nat, (width - k) as nat);
        let ghost next = le_bytes((v / 256) as nat, (width - k - 1) as nat);
        assert(rest == seq![(v % 256) as u8] + next);
        let ghost before = out@;
        out.push((v % 256) as u8);
        assert(before + rest =~= out@ + next);
        v = v / 256;
        k += 1;
    }
}

/// Appends the bytes of the words, in order.
fn push_words(out: &mut Vec<u8>, words: &[[u8; 4]])
    ensures
        final(out)@ == old(out)@ + flatten_words(words@),
{
    let mut k: usize = 0;
    assert(words@.take(0) =~= Seq::<[u8; 4]>::empty());
    assert(out@ =~= old(out)@ + flatten_words(words@.take(0)));
    while k < words.len()
        invariant
            k <= words@.len(),
            out@ == old(out)@ + flatten_words(words@.take(k as int)),
        decreases words@.len() - k,
    {
        let word = words[k];
        assert(words@.take(k + 1).drop_last() =~= words@.take(k as int));
        let ghost before = out@;
        out.push(word[0]);
        out.push(word[1]);
        out.push(word[2]);
        out.push(word[3]);
        assert(out@ =~= before + word@);
        k += 1;
    }
    assert(words@.take(words@.len() as int) =~= words@);
}

/// The saved form of a state: the three unit-cell dimensions as
/// little-endian machine words, then the spin words in order.
pub fn encode_state(uc_dims: [usize; 3], spin_words: &[[u8; 4]]) -> (bytes: Vec<u8>)
    ensures
        bytes@ == state_bytes(uc_dims, spin_words@),
{
    let mut bytes: Vec<u8> = Vec::new();
    push_word(&mut bytes, uc_dims[0]);
    push_word(&mut bytes, uc_dims[1]);
    push_word(&mut bytes, uc_dims[2]);
    push_words(&mut bytes, spin_words);
    assert(bytes@ =~= state_bytes(uc_dims, spin_words@));
    bytes
}

/// The ways in which a saved state can be malformed.
#[derive(Clone, Copy, Debug, PartialEq, Eq, Structural)]
pub enum StateError {
    /// The bytes after the dimensions are not a whole number of
    /// four-byte spin words.
    InvalidLength,
}

/// The machine word stored little-endian at `bytes[start..start + word]`.
fn read_word(bytes: &[u8], start: usize) -> (x: usize)
    requires
        start + word_bytes() <= bytes@.len(),
    ensures
        x as nat == le_value(bytes@.subrange(start as int, start + word_bytes())),
{
    proof {
        lemma_word_range();
    }
    let width: usize = (usize::BITS / 8) as usize;
    let mut value: usize = 0;
    let mut k: usize = width;
    assert(bytes@.subrange(start + k, start + width).len() == 0);
    assert(bytes@.len() == bytes.len());
    while k > 0
        invariant
            bytes@.len() <= usize::MAX,
            width == word_bytes(),
            byte_range(width as nat) == usize::MAX + 1,
            k <= width,
            start + width <= bytes@.len(),
            value as nat == le_value(bytes@.subrange(start + k, start + width)),
            value < byte_range((width - k) as nat),
        decreases k,
    {
        let b = bytes[start + k - 1];
        let ghost tail = bytes@.subrange(start + k, start + width);
        let ghost longer = bytes@.subrange(start + k - 1, start + width);
        assert(longer.drop_first() =~= tail);
        assert(longer[0] == b);
        proof {
            lemma_byte_range_monotonic((width - k + 1) as nat, width as nat);
            assert(value * 256 + b < 256 * byte_range((width - k) as nat)) by (nonlinear_arith)
                requires value < byte_range((width - k) as nat), b < 256;
        }
        value = value * 256 + b as usize;
        k -= 1;
    }
    value
}

/// The state that saved bytes hold: the three unit-cell dimensions and the
/// spin words. Bytes after the dimensions that are not a whole number of
/// four-byte words are refused.
pub fn decode_state(bytes: &[u8]) -> (state: Result<([usize; 3], Vec<[u8; 4]>), StateError>)
    requires
        bytes@.len() >= 3 * word_bytes(),
    ensures
        match state {
            Ok((uc_dims, words)) => decodes_to(bytes@, uc_dims, words@),
            Err(e) => e == StateError::InvalidLength && (bytes@.len() - 3 * word_bytes()) % 4 != 0,
        },
        state is Ok <==> (bytes@.len() - 3 * word_bytes()) % 4 == 0,
{
    proof {
        lemma_word_range();
    }
    let width: usize = (usize::BITS / 8) as usize;
    let uc_dims: [usize; 3] = [
        read_word(bytes, 0),
        read_word(bytes, width),
        read_word(bytes, 2 * width),
    ];
    assert forall|j: int| 0 <= j < 3 implies
        le_value(#[trigger] bytes@.subrange(j * width, (j + 1) * width)) == uc_dims[j] as nat by {
        if j == 1 {
            assert(j * width == width);
        } else if j == 2 {
            assert(j * width == 2 * width);
        }
    }
    let rest = bytes.len() - 3 * width;
    if rest % 4 != 0 {
        return Err(StateError::InvalidLength);
    }
    let count = rest / 4;
    let base = 3 * width;
    let mut words: Vec<[u8; 4]> = Vec::new();
    let mut k: usize = 0;
    while k < count
        invariant
            base == 3 * word_bytes(),
            base + 4 * count == bytes@.len(),
            k <= count,
            words@.len() == k,
            forall|j: int| 0 <= j < k ==>
                bytes@.subrange(base + 4 * j, base + 4 * j + 4) == (#[trigger] words@[j])@,
        decreases count - k,
    {
        assert(base + 4 * k + 4 <= bytes@.len());
        assert(bytes@.len() == bytes.len());
        let at = base + 4 * k;
        let word: [u8; 4] = [bytes[at], bytes[at + 1], bytes[at + 2], bytes[at + 3]];
        assert(bytes@.subrange(at as int, at + 4) =~= word@);
        words.push(word);
        k += 1;
    }
    Ok((uc_dims, words))
}

/// Splitting the concatenated words at word boundaries gives the words
/// back.
pub proof fn lemma_flatten_words(words: Seq<[u8; 4]>)
    ensures
        flatten_words(words).len() == 4 * words.len(),
        forall|k: int| 0 <= k < words.len() ==>
            flatten_words(words).subrange(4 * k, 4 * k + 4) == (#[trigger] words[k])@,
    decreases words.len(),
{
    if words.len() > 0 {
        let before = words.drop_last();
        lemma_flatten_words(before);
        assert forall|k: int| 0 <= k < words.len() implies
            flatten_words(words).subrange(4 * k, 4 * k + 4) == (#[trigger] words[k])@ by {
            if k < words.len() - 1 {
                assert(before[k] == words[k]);
                assert(flatten_words(words).subrange(4 * k, 4 * k + 4)
                    =~= flatten_words(before).subrange(4 * k, 4 * k + 4));
            } else {
                assert(flatten_words(words).subrange(4 * k, 4 * k + 4) =~= words.last()@);
            }
        }
    }
}

/// Loading a saved state gives back the dimensions and spin words that
/// were saved.
pub proof fn lemma_state_roundtrip(uc_dims: [usize; 3], words: Seq<[u8; 4]>)
    ensures
        decodes_to(state_bytes(uc_dims, words), uc_dims, words),
        (state_bytes(uc_dims, words).len() - 3 * word_bytes()) % 4 == 0,
{
    lemma_word_range();
    let w = word_bytes() as int;
    let b = state_bytes(uc_dims, words);
    lemma_le_roundtrip(uc_dims[0] as nat, word_bytes());
    lemma_le_roundtrip(uc_dims[1] as nat, word_bytes());
    lemma_le_roundtrip(uc_dims[2] as nat, word_bytes());
    lemma_flatten_words(words);
    let b0 = le_bytes(uc_dims[0] as nat, word_bytes());
    let b1 = le_bytes(uc_dims[1] as nat, word_bytes());
    let b2 = le_bytes(uc_dims[2] as nat, word_bytes());
    let f = flatten_words(words);
    assert(b.subrange(0, w) =~= b0);
    assert(b.subrange(w, 2 * w) =~= b1);
    assert(b.subrange(2 * w, 3 * w) =~= b2);
    assert forall|i: int| 0 <= i < 3 implies le_value(#[trigger] b.subrange(i * w, (i + 1) * w)) == uc_dims[i] as nat by {
        if i == 0 {
            assert(b.subrange(i * w, (i + 1) * w) == b.subrange(0, w));
        } else if i == 1 {
            assert(b.subrange(i * w, (i + 1) * w) == b.subrange(w, 2 * w));
        } else {
            assert(b.subrange(i * w, (i + 1) * w) == b.subrange(2 * w, 3 * w));
        }
    }
    assert forall|k: int| 0 <= k < words.len() implies
        b.subrange(3 * w + 4 * k, 3 * w + 4 * k + 4) == (#[trigger] words[k])@ by {
        assert(b.subrange(3 * w + 4 * k, 3 * w + 4 * k + 4) =~= f.subrange(4 * k, 4 * k + 4));
    }
    assert((4 * words.len()) % 4 == 0) by (nonlinear_arith);
}

/// Saved bytes determine the state they hold: whatever state the bytes
/// decode to, saving it gives the same bytes back.
pub proof fn lemma_decode_determines_bytes(bytes: Seq<u8>, uc_dims: [usize; 3], words: Seq<[u8; 4]>)
    requires
        decodes_to(bytes, uc_dims, words),
    ensures
        bytes == state_bytes(uc_dims, words),
{
    lemma_word_range();
    let w = word_bytes() as int;
    let b = state_bytes(uc_dims, words);
    lemma_state_roundtrip(uc_dims, words);
    assert forall|i: int| 0 <= i < 3 implies #[trigger] bytes.subrange(i * w, (i + 1) * w) == b.subrange(i * w, (i + 1) * w) by {
        let x = bytes.subrange(i * w, (i + 1) * w);
        let y = b.subrange(i * w, (i + 1) * w);
        lemma_le_value_bound(x);
        lemma_le_roundtrip(uc_dims[i] as nat, word_bytes());
        lemma_le_bytes_of_value(x);
        lemma_le_bytes_of_value(y);
    }
    assert forall|j: int| 0 <= j < bytes.len() implies bytes[j] == b[j] by {
        if j < 3 * w {
            let i = j / w;
            assert(0 <= i < 3) by (nonlinear_arith) requires 0 <= j < 3 * w, w > 0, i == j / w;
            assert(i * w <= j < (i + 1) * w) by (nonlinear_arith) requires 0 <= j, w > 0, i == j / w;
            assert(bytes.subrange(i * w, (i + 1) * w)[j - i * w] == bytes[j]);
            assert(b.subrange(i * w, (i + 1) * w)[j - i * w] == b[j]);
        } else {
            let k = (j - 3 * w) / 4;
            assert(0 <= k < words.len() && 3 * w + 4 * k <= j < 3 * w + 4 * k + 4) by (nonlinear_arith)
                requires 3 * w <= j < 3 * w + 4 * words.len(), k == (j - 3 * w) / 4;
            assert(bytes.subrange(3 * w + 4 * k, 3 * w + 4 * k + 4)[j - 3 * w - 4 * k] == bytes[j]);
            assert(b.subrange(3 * w + 4 * k, 3 * w + 4 * k + 4)[j - 3 * w - 4 * k] == b[j]);
            assert(words[k]@ == bytes.subrange(3 * w + 4 * k, 3 * w + 4 * k + 4));
        }
    }
    assert(bytes =~= b);
}

/// Bytes are the little-endian encoding of their own value.
pub proof fn lemma_le_bytes_of_value(bytes: Seq<u8>)
    ensures
        le_bytes(le_value(bytes), bytes.len()) == bytes,
    decreases bytes.len(),
{
    if bytes.len() > 0 {
        let rest = bytes.drop_first();
        lemma_le_bytes_of_value(rest);
        let v = le_value(bytes);
        assert(v % 256 == bytes[0] as nat && v / 256 == le_value(rest)) by (nonlinear_arith)
            requires v == bytes[0] as nat + 256 * le_value(rest), bytes[0] < 256;
        assert(le_bytes(v, bytes.len()) =~= bytes);
    }
}

} // verus!
