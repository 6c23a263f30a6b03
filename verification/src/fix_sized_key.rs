//! Fixed-width key codec.  A raw byte string no longer than the configured
//! width is padded with zero bytes on the right; keys of one width compare
//! either byte-wise (always the plain lexicographic order) or word-wise
//! (eight-byte little-endian words compared lexicographically by word — the
//! fast path, selected when callers do not need byte-exact ordering).
use vstd::prelude::*;

verus! {

use core::cmp::Ordering;
use vstd::std_specs::cmp::{PartialEqSpec, PartialOrdSpec};
use vstd::utf8::{valid_utf8, encode_utf8};
use crate::errors::BenchError;

/// Construction-time parameters of the codec: the fixed width, and whether
/// the word-wise comparison mode is selected.
pub struct FixSizedKeyParams {
    pub key_size: usize,
    pub allow_int_cmp: bool,
}

impl FixSizedKeyParams {
    /// Word-wise comparison needs the width to be a whole number of words.
    pub open spec fn wf(&self) -> bool {
        &&& self.key_size >= 1
        &&& (self.allow_int_cmp ==> self.key_size % 8 == 0)
    }
}

/// The default parameters: sixteen bytes, word-wise comparison.
pub struct DefaultParams {}

impl DefaultParams {
    pub fn params() -> (r: FixSizedKeyParams)
        ensures
            r.key_size == 16,
            r.allow_int_cmp == true,
            r.wf(),
    {
        FixSizedKeyParams { key_size: crate::DEFAULT_KEY_SIZE, allow_int_cmp: true }
    }
}

/// Types that expose their raw bytes for encoding into a key.
pub trait AsRaw {
    /// The byte sequence the key is built from.
    spec fn raw_view(&self) -> Seq<u8>;

    fn as_raw(&self) -> (r: &[u8])
        ensures
            r@ == self.raw_view(),
    ;
}

impl AsRaw for String {
    open spec fn raw_view(&self) -> Seq<u8> {
        encode_utf8(self@)
    }

    fn as_raw(&self) -> (r: &[u8]) {
        self.as_str().as_bytes()
    }
}

impl<'a> AsRaw for &'a str {
    open spec fn raw_view(&self) -> Seq<u8> {
        encode_utf8(self@)
    }

    fn as_raw(&self) -> (r: &[u8]) {
        self.as_bytes()
    }
}

/// `raw` padded with zero bytes up to width `sz`.
pub open spec fn padded(raw: Seq<u8>, sz: int) -> Seq<u8> {
    raw + Seq::new((sz - raw.len()) as nat, |i: int| 0u8)
}

/// Byte-wise lexicographic comparison of two equal-length sequences,
/// starting at position `i`.
pub open spec fn byte_cmp_from(a: Seq<u8>, b: Seq<u8>, i: int) -> Ordering
    decreases a.len() - i,
{
    if i < 0 || i >= a.len() || i >= b.len() {
        Ordering::Equal
    } else if a[i] < b[i] {
        Ordering::Less
    } else if a[i] > b[i] {
        Ordering::Greater
    } else {
        byte_cmp_from(a, b, i + 1)
    }
}

/// Lexicographic comparison of raw sequences of possibly different lengths;
/// a strict prefix sorts before its extensions.
pub open spec fn raw_cmp_from(a: Seq<u8>, b: Seq<u8>, i: int) -> Ordering
    decreases a.len() - i,
{
    if i < 0 {
        Ordering::Equal
    } else if i >= a.len() && i >= b.len() {
        Ordering::Equal
    } else if i >= a.len() {
        Ordering::Less
    } else if i >= b.len() {
        Ordering::Greater
    } else if a[i] < b[i] {
        Ordering::Less
    } else if a[i] > b[i] {
        Ordering::Greater
    } else {
        raw_cmp_from(a, b, i + 1)
    }
}

pub open spec fn raw_lex_cmp(a: Seq<u8>, b: Seq<u8>) -> Ordering {
    raw_cmp_from(a, b, 0)
}

/// The `w`-th eight-byte little-endian word of the buffer.
pub open spec fn word_at(bs: Seq<u8>, w: int) -> u64 {
    (bs[8 * w] as u64) | ((bs[8 * w + 1] as u64) << 8) | ((bs[8 * w + 2] as u64) << 16) | ((bs[8
        * w + 3] as u64) << 24) | ((bs[8 * w + 4] as u64) << 32) | ((bs[8 * w + 5] as u64) << 40)
        | ((bs[8 * w + 6] as u64) << 48) | ((bs[8 * w + 7] as u64) << 56)
}

/// The buffer read as a sequence of little-endian words.
pub open spec fn words_of(bs: Seq<u8>) -> Seq<u64> {
    Seq::new((bs.len() / 8) as nat, |w: int| word_at(bs, w))
}

/// Word-wise comparison: words are compared lexicographically by index.
pub open spec fn word_cmp_from(a: Seq<u8>, b: Seq<u8>, w: int) -> Ordering
    decreases a.len() / 8 - w,
{
    if w < 0 || w >= a.len() / 8 || w >= b.len() / 8 {
        Ordering::Equal
    } else if word_at(a, w) < word_at(b, w) {
        Ordering::Less
    } else if word_at(a, w) > word_at(b, w) {
        Ordering::Greater
    } else {
        word_cmp_from(a, b, w + 1)
    }
}

/// The order of two key buffers under the given comparison mode.
pub open spec fn key_cmp_of(int_cmp: bool, a: Seq<u8>, b: Seq<u8>) -> Ordering {
    if int_cmp {
        word_cmp_from(a, b, 0)
    } else {
        byte_cmp_from(a, b, 0)
    }
}

/// Lexicographic comparison of word sequences, starting at index `i`.
pub open spec fn word_seq_cmp_from(x: Seq<u64>, y: Seq<u64>, i: int) -> Ordering
    decreases x.len() - i,
{
    if i < 0 || i >= x.len() || i >= y.len() {
        Ordering::Equal
    } else if x[i] < y[i] {
        Ordering::Less
    } else if x[i] > y[i] {
        Ordering::Greater
    } else {
        word_seq_cmp_from(x, y, i + 1)
    }
}

/// A key normalized to the fixed width, carrying its comparison mode.
#[derive(Debug, Clone)]
pub struct FixSizedKey {
    bytes: Vec<u8>,
    int_cmp: bool,
}

impl View for FixSizedKey {
    type V = Seq<u8>;

    closed spec fn view(&self) -> Seq<u8> {
        self.bytes@
    }
}

impl FixSizedKey {
    /// Which comparison mode the key was constructed with.
    pub closed spec fn mode(&self) -> bool {
        self.int_cmp
    }

    /// Word-wise keys span a whole number of words.
    pub open spec fn wf(&self) -> bool {
        self.mode() ==> self@.len() % 8 == 0
    }

    /// Two keys can be ordered when they share width and mode.
    pub open spec fn compat(&self, other: &Self) -> bool {
        &&& self.mode() == other.mode()
        &&& self@.len() == other@.len()
        &&& self.wf()
    }

    /// Encode a raw byte string: reject anything beyond the fixed width,
    /// zero-pad anything shorter.
    pub fn from_bytes(raw: &[u8], params: &FixSizedKeyParams) -> (r: Result<Self, BenchError>)
        requires
            params.wf(),
        ensures
            raw@.len() <= params.key_size ==> (r matches Ok(k) && k@ == padded(
                raw@,
                params.key_size as int,
            ) && k@.len() == params.key_size && k.mode() == params.allow_int_cmp && k.wf()),
            raw@.len() > params.key_size ==> r == Err::<Self, BenchError>(BenchError::KeyTooLarge),
    {
        if raw.len() > params.key_size {
            return Err(BenchError::KeyTooLarge);
        }
        let mut bytes: Vec<u8> = Vec::new();
        let mut i: usize = 0;
        while i < raw.len()
            invariant
                i <= raw@.len(),
                bytes@ =~= raw@.subrange(0, i as int),
            decreases raw@.len() - i,
        {
            bytes.push(raw[i]);
            i = i + 1;
        }
        while bytes.len() < params.key_size
            invariant
                raw@.len() <= bytes@.len() <= params.key_size,
                bytes@ =~= padded(raw@, bytes@.len() as int),
            decreases params.key_size - bytes@.len(),
        {
            bytes.push(0);
            proof {
                assert(bytes@ =~= padded(raw@, bytes@.len() as int));
            }
        }
        proof {
            assert(bytes@ =~= padded(raw@, params.key_size as int));
        }
        Ok(FixSizedKey { bytes, int_cmp: params.allow_int_cmp })
    }

    /// Encode anything that exposes raw bytes.
    pub fn from_raw<K: AsRaw>(value: &K, params: &FixSizedKeyParams) -> (r: Result<
        Self,
        BenchError,
    >)
        requires
            params.wf(),
        ensures
            value.raw_view().len() <= params.key_size ==> (r matches Ok(k) && k@ == padded(
                value.raw_view(),
                params.key_size as int,
            ) && k@.len() == params.key_size && k.mode() == params.allow_int_cmp && k.wf()),
            value.raw_view().len() > params.key_size ==> r == Err::<Self, BenchError>(
                BenchError::KeyTooLarge,
            ),
    {
        Self::from_bytes(value.as_raw(), params)
    }

    /// The stored payload: everything before the first zero byte.
    pub fn decode_bytes(&self) -> (r: Vec<u8>)
        ensures
            r@ == decoded(self@),
    {
        let n = self.bytes.len();
        let mut cnt: usize = 0;
        while cnt < n && self.bytes[cnt] != 0
            invariant
                0 <= cnt <= n,
                n == self@.len(),
                first_nul_from(self@, 0) == first_nul_from(self@, cnt as int),
            decreases n - cnt,
        {
            cnt = cnt + 1;
        }
        proof {
            assert(first_nul_from(self@, cnt as int) == cnt as int);
        }
        let mut r: Vec<u8> = Vec::new();
        let mut i: usize = 0;
        while i < cnt
            invariant
                i <= cnt <= self@.len(),
                r@ =~= self@.subrange(0, i as int),
            decreases cnt - i,
        {
            r.push(self.bytes[i]);
            i = i + 1;
        }
        proof {
            assert(r@ =~= decoded(self@));
        }
        r
    }

    /// The stored payload as a string, when it is valid UTF-8.
    pub fn to_str(&self) -> (r: Result<String, BenchError>)
        ensures
            match r {
                Ok(s) => valid_utf8(decoded(self@)) && encode_utf8(s@) == decoded(self@),
                Err(e) => e == BenchError::InvalidUtf8 && !valid_utf8(decoded(self@)),
            },
    {
        let payload = self.decode_bytes();
        match bytes_to_string(payload) {
            Some(s) => Ok(s),
            None => Err(BenchError::InvalidUtf8),
        }
    }

    /// Total order among compatible keys, in the key's comparison mode.
    pub fn cmp(&self, other: &Self) -> (r: Ordering)
        requires
            self.compat(other),
        ensures
            r == key_cmp_of(self.mode(), self@, other@),
    {
        if self.int_cmp {
            self.cmp_words(other)
        } else {
            self.cmp_bytes(other)
        }
    }

    fn cmp_bytes(&self, other: &Self) -> (r: Ordering)
        requires
            self@.len() == other@.len(),
        ensures
            r == byte_cmp_from(self@, other@, 0),
    {
        let n = self.bytes.len();
        let mut i: usize = 0;
        while i < n
            invariant
                0 <= i <= n,
                n == self@.len() == other@.len(),
                byte_cmp_from(self@, other@, 0) == byte_cmp_from(self@, other@, i as int),
            decreases n - i,
        {
            let x = self.bytes[i];
            let y = other.bytes[i];
            if x < y {
                return Ordering::Less;
            } else if x > y {
                return Ordering::Greater;
            }
            i = i + 1;
        }
        Ordering::Equal
    }

    fn cmp_words(&self, other: &Self) -> (r: Ordering)
        requires
            self@.len() == other@.len(),
            self@.len() % 8 == 0,
        ensures
            r == word_cmp_from(self@, other@, 0),
    {
        let nw = self.bytes.len() / 8;
        let mut w: usize = 0;
        while w < nw
            invariant
                0 <= w <= nw,
                nw == self@.len() / 8,
                self@.len() == other@.len(),
                self@.len() % 8 == 0,
                word_cmp_from(self@, other@, 0) == word_cmp_from(self@, other@, w as int),
            decreases nw - w,
        {
            let x = word_at_exec(&self.bytes, w);
            let y = word_at_exec(&other.bytes, w);
            if x < y {
                return Ordering::Less;
            } else if x > y {
                return Ordering::Greater;
            }
            w = w + 1;
        }
        Ordering::Equal
    }
}

/// The `w`-th little-endian word, computed exactly as `word_at` reads it.
fn word_at_exec(bytes: &Vec<u8>, w: usize) -> (r: u64)
    requires
        8 * w + 8 <= bytes@.len(),
    ensures
        r == word_at(bytes@, w as int),
{
    let n = bytes.len();
    assert(8 * w + 8 <= n);
    let base = 8 * w;
    (bytes[base] as u64) | ((bytes[base + 1] as u64) << 8) | ((bytes[base + 2] as u64) << 16) | ((
    bytes[base + 3] as u64) << 24) | ((bytes[base + 4] as u64) << 32) | ((bytes[base + 5] as u64)
        << 40) | ((bytes[base + 6] as u64) << 48) | ((bytes[base + 7] as u64) << 56)
}

/// Relies on `String::from_utf8`: it returns `Ok` exactly when the bytes are
/// valid UTF-8, and the returned string's UTF-8 encoding is those bytes.
#[verifier::external_body]
fn bytes_to_string(bytes: Vec<u8>) -> (r: Option<String>)
    ensures
        match r {
            Some(s) => valid_utf8(bytes@) && encode_utf8(s@) == bytes@,
            None => !valid_utf8(bytes@),
        },
{
    match String::from_utf8(bytes) {
        Ok(s) => Some(s),
        Err(_) => None,
    }
}

/// Index of the first zero byte at or after `i` (the length if none).
pub open spec fn first_nul_from(s: Seq<u8>, i: int) -> int
    decreases s.len() - i,
{
    if i < 0 || i >= s.len() {
        s.len() as int
    } else if s[i] == 0 {
        i
    } else {
        first_nul_from(s, i + 1)
    }
}

/// The payload of a key buffer: the bytes before the first zero byte.
pub open spec fn decoded(s: Seq<u8>) -> Seq<u8> {
    s.take(first_nul_from(s, 0))
}

/// Everything before the first zero byte is nonzero, and the byte there
/// (when inside the buffer) is zero.
pub proof fn lemma_first_nul(s: Seq<u8>, i: int)
    requires
        0 <= i <= s.len(),
    ensures
        i <= first_nul_from(s, i) <= s.len(),
        forall|j: int| i <= j < first_nul_from(s, i) ==> s[j] != 0,
        first_nul_from(s, i) < s.len() ==> s[first_nul_from(s, i)] == 0,
    decreases s.len() - i,
{
    if i < s.len() && s[i] != 0 {
        lemma_first_nul(s, i + 1);
    }
}

/// Round trip of the codec: a payload without zero bytes that fits the
/// width is recovered exactly by decoding its encoding.
pub proof fn lemma_round_trip(raw: Seq<u8>, sz: int)
    requires
        raw.len() <= sz,
        forall|j: int| 0 <= j < raw.len() ==> raw[j] != 0,
    ensures
        decoded(padded(raw, sz)) == raw,
{
    let p = padded(raw, sz);
    lemma_first_nul_stops(p, raw, 0);
    assert(first_nul_from(p, 0) == raw.len());
    assert(p.take(raw.len() as int) =~= raw);
}

proof fn lemma_first_nul_stops(p: Seq<u8>, raw: Seq<u8>, i: int)
    requires
        0 <= i <= raw.len() <= p.len(),
        forall|j: int| 0 <= j < raw.len() ==> p[j] == raw[j] && raw[j] != 0,
        raw.len() < p.len() ==> p[raw.len() as int] == 0,
    ensures
        first_nul_from(p, i) == raw.len(),
    decreases raw.len() - i,
{
    if i < raw.len() {
        lemma_first_nul_stops(p, raw, i + 1);
    }
}

/// Byte-wise comparison reports `Equal` exactly on equal suffixes.
pub proof fn lemma_byte_cmp_equal_iff(a: Seq<u8>, b: Seq<u8>, i: int)
    requires
        a.len() == b.len(),
        0 <= i <= a.len(),
    ensures
        (byte_cmp_from(a, b, i) == Ordering::Equal) <==> (forall|j: int|
            i <= j < a.len() ==> a[j] == b[j]),
    decreases a.len() - i,
{
    if i < a.len() {
        lemma_byte_cmp_equal_iff(a, b, i + 1);
    }
}

/// A little-endian word determines its eight bytes.
proof fn lemma_word_bytes_injective(
    b0: u8, b1: u8, b2: u8, b3: u8, b4: u8, b5: u8, b6: u8, b7: u8,
    c0: u8, c1: u8, c2: u8, c3: u8, c4: u8, c5: u8, c6: u8, c7: u8,
)
    requires
        (b0 as u64) | ((b1 as u64) << 8) | ((b2 as u64) << 16) | ((b3 as u64) << 24) | ((
        b4 as u64) << 32) | ((b5 as u64) << 40) | ((b6 as u64) << 48) | ((b7 as u64) << 56) == (
        c0 as u64) | ((c1 as u64) << 8) | ((c2 as u64) << 16) | ((c3 as u64) << 24) | ((c4 as u64)
            << 32) | ((c5 as u64) << 40) | ((c6 as u64) << 48) | ((c7 as u64) << 56),
    ensures
        b0 == c0 && b1 == c1 && b2 == c2 && b3 == c3 && b4 == c4 && b5 == c5 && b6 == c6 && b7
            == c7,
{
    assert((b0 as u64) | ((b1 as u64) << 8) | ((b2 as u64) << 16) | ((b3 as u64) << 24) | ((
    b4 as u64) << 32) | ((b5 as u64) << 40) | ((b6 as u64) << 48) | ((b7 as u64) << 56) == (
    c0 as u64) | ((c1 as u64) << 8) | ((c2 as u64) << 16) | ((c3 as u64) << 24) | ((c4 as u64)
        << 32) | ((c5 as u64) << 40) | ((c6 as u64) << 48) | ((c7 as u64) << 56) ==> (b0 == c0 && b1
        == c1 && b2 == c2 && b3 == c3 && b4 == c4 && b5 == c5 && b6 == c6 && b7 == c7))
        by (bit_vector);
}

/// Equal words at `w` mean equal bytes across that word.
proof fn lemma_word_eq_bytes(a: Seq<u8>, b: Seq<u8>, w: int)
    requires
        a.len() == b.len(),
        0 <= w,
        8 * w + 8 <= a.len(),
        word_at(a, w) == word_at(b, w),
    ensures
        forall|j: int| 8 * w <= j < 8 * w + 8 ==> a[j] == b[j],
{
    lemma_word_bytes_injective(
        a[8 * w], a[8 * w + 1], a[8 * w + 2], a[8 * w + 3], a[8 * w + 4], a[8 * w + 5],
        a[8 * w + 6], a[8 * w + 7],
        b[8 * w], b[8 * w + 1], b[8 * w + 2], b[8 * w + 3], b[8 * w + 4], b[8 * w + 5],
        b[8 * w + 6], b[8 * w + 7],
    );
    assert forall|j: int| 8 * w <= j < 8 * w + 8 implies a[j] == b[j] by {
        if j == 8 * w {
        } else if j == 8 * w + 1 {
        } else if j == 8 * w + 2 {
        } else if j == 8 * w + 3 {
        } else if j == 8 * w + 4 {
        } else if j == 8 * w + 5 {
        } else if j == 8 * w + 6 {
        } else {
            assert(j == 8 * w + 7);
        }
    }
}

/// Word-wise comparison reports `Equal` exactly on equal suffixes.
pub proof fn lemma_word_cmp_equal_iff(a: Seq<u8>, b: Seq<u8>, w: int)
    requires
        a.len() == b.len(),
        a.len() % 8 == 0,
        0 <= w <= a.len() / 8,
    ensures
        (word_cmp_from(a, b, w) == Ordering::Equal) <==> (forall|j: int|
            8 * w <= j < a.len() ==> a[j] == b[j]),
    decreases a.len() / 8 - w,
{
    if w < a.len() / 8 {
        lemma_word_cmp_equal_iff(a, b, w + 1);
        if word_cmp_from(a, b, w) == Ordering::Equal {
            lemma_word_eq_bytes(a, b, w);
        }
        if forall|j: int| 8 * w <= j < a.len() ==> a[j] == b[j] {
            assert(word_at(a, w) == word_at(b, w));
        }
    }
}

/// Equality and ordering agree in either mode: the comparison reports
/// `Equal` exactly when the two buffers hold the same bytes.
pub proof fn lemma_key_cmp_equal_iff(int_cmp: bool, a: Seq<u8>, b: Seq<u8>)
    requires
        a.len() == b.len(),
        int_cmp ==> a.len() % 8 == 0,
    ensures
        (key_cmp_of(int_cmp, a, b) == Ordering::Equal) <==> a == b,
{
    if int_cmp {
        lemma_word_cmp_equal_iff(a, b, 0);
    } else {
        lemma_byte_cmp_equal_iff(a, b, 0);
    }
    if key_cmp_of(int_cmp, a, b) == Ordering::Equal {
        assert(a =~= b);
    }
}

/// Equality and ordering agree: two comparable keys are equal exactly when
/// their comparison reports `Equal`.
pub proof fn lemma_eq_agrees_with_cmp(a: FixSizedKey, b: FixSizedKey)
    requires
        a.compat(&b),
    ensures
        a.eq_spec(&b) <==> a.partial_cmp_spec(&b) == Some(Ordering::Equal),
{
    lemma_key_cmp_equal_iff(a.mode(), a@, b@);
}

/// Byte-wise mode agrees with plain lexicographic order of the raw,
/// unpadded inputs, as long as neither holds a zero byte.
pub proof fn lemma_encode_order_bytewise(a: Seq<u8>, b: Seq<u8>, sz: int)
    requires
        a.len() <= sz,
        b.len() <= sz,
        forall|j: int| 0 <= j < a.len() ==> a[j] != 0,
        forall|j: int| 0 <= j < b.len() ==> b[j] != 0,
    ensures
        byte_cmp_from(padded(a, sz), padded(b, sz), 0) == raw_lex_cmp(a, b),
{
    lemma_encode_order_bytewise_from(a, b, sz, 0);
}

proof fn lemma_encode_order_bytewise_from(a: Seq<u8>, b: Seq<u8>, sz: int, i: int)
    requires
        a.len() <= sz,
        b.len() <= sz,
        0 <= i <= sz,
        forall|j: int| 0 <= j < a.len() ==> a[j] != 0,
        forall|j: int| 0 <= j < b.len() ==> b[j] != 0,
    ensures
        byte_cmp_from(padded(a, sz), padded(b, sz), i) == raw_cmp_from(a, b, i),
    decreases sz - i,
{
    let pa = padded(a, sz);
    let pb = padded(b, sz);
    if i < sz {
        if i >= a.len() && i >= b.len() {
            lemma_byte_cmp_equal_iff(pa, pb, i);
        } else {
            lemma_encode_order_bytewise_from(a, b, sz, i + 1);
        }
    }
}

/// Word-wise mode is exactly the lexicographic order of the word sequences.
pub proof fn lemma_wordwise_is_word_lex(a: Seq<u8>, b: Seq<u8>)
    requires
        a.len() == b.len(),
        a.len() % 8 == 0,
    ensures
        key_cmp_of(true, a, b) == word_seq_cmp_from(words_of(a), words_of(b), 0),
{
    lemma_wordwise_is_word_lex_from(a, b, 0);
}

proof fn lemma_wordwise_is_word_lex_from(a: Seq<u8>, b: Seq<u8>, w: int)
    requires
        a.len() == b.len(),
        a.len() % 8 == 0,
        0 <= w <= a.len() / 8,
    ensures
        word_cmp_from(a, b, w) == word_seq_cmp_from(words_of(a), words_of(b), w),
    decreases a.len() / 8 - w,
{
    if w < a.len() / 8 {
        lemma_wordwise_is_word_lex_from(a, b, w + 1);
    }
}

impl PartialEq for FixSizedKey {
    fn eq(&self, other: &Self) -> (r: bool) {
        if self.int_cmp != other.int_cmp || self.bytes.len() != other.bytes.len() {
            return false;
        }
        let n = self.bytes.len();
        let mut i: usize = 0;
        while i < n
            invariant
                0 <= i <= n,
                n == self@.len() == other@.len(),
                self.mode() == other.mode(),
                forall|j: int| 0 <= j < i ==> self@[j] == #[trigger] other@[j],
            decreases n - i,
        {
            if self.bytes[i] != other.bytes[i] {
                return false;
            }
            i = i + 1;
        }
        proof {
            assert(self@ =~= other@);
        }
        true
    }
}

impl vstd::std_specs::cmp::PartialEqSpecImpl for FixSizedKey {
    open spec fn obeys_eq_spec() -> bool {
        true
    }

    open spec fn eq_spec(&self, other: &Self) -> bool {
        self.mode() == other.mode() && self@ == other@
    }
}

impl PartialOrd for FixSizedKey {
    fn partial_cmp(&self, other: &Self) -> (r: Option<Ordering>) {
        if self.int_cmp != other.int_cmp || self.bytes.len() != other.bytes.len() {
            return None;
        }
        if self.int_cmp && self.bytes.len() % 8 != 0 {
            return None;
        }
        Some(self.cmp(other))
    }
}

impl vstd::std_specs::cmp::PartialOrdSpecImpl for FixSizedKey {
    open spec fn obeys_partial_cmp_spec() -> bool {
        true
    }

    open spec fn partial_cmp_spec(&self, other: &Self) -> Option<Ordering> {
        if self.compat(other) {
            Some(key_cmp_of(self.mode(), self@, other@))
        } else {
            None
        }
    }
}

} // verus!
