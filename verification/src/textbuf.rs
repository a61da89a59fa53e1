//! Fixed-capacity text cells: a block of `N` bytes and a length.

use vstd::prelude::*;
use vstd::slice::slice_subrange;
use vstd::string::StringSliceAdditionalSpecFns;
use vstd::utf8::*;

verus! {

/// A text cell that holds at most `N` bytes.
///
/// Only the first `len` bytes of `buff` are content; what lies behind them is
/// left over from earlier contents and means nothing.
#[derive(Clone, Copy, Debug)]
pub struct StrBuff<const N: usize> {
    /// Number of bytes in use.
    pub len: usize,
    /// Storage.
    pub buff: [u8; N],
}

/// Greatest length of a move in coordinate notation, as in `e7e8q`.
pub const UCI_MAX_LENGTH: usize = 5;

/// Usual length of a move in coordinate notation, as in `e2e4`.
pub const UCI_TYPICAL_LENGTH: usize = 4;

/// Number of moves of usual length that a principal variation keeps.
pub const MAX_PV_MOVES: usize = 10;

/// Capacity for a principal variation: each move with the space behind it.
pub const PV_BUFF_SIZE: usize = MAX_PV_MOVES * (UCI_TYPICAL_LENGTH + 1);

/// Cell for one move.
pub type UciBuff = StrBuff<UCI_MAX_LENGTH>;

/// Cell for a principal variation.
pub type PvBuff = StrBuff<PV_BUFF_SIZE>;

/// What a cell of capacity `cap` keeps of `bytes`: the first `cap` bytes, or all of them.
pub open spec fn kept(bytes: Seq<u8>, cap: nat) -> Seq<u8> {
    if bytes.len() <= cap {
        bytes
    } else {
        bytes.take(cap as int)
    }
}

/// The encoding of `sep` stands in `bytes` from position `k` on.
pub open spec fn sep_at(bytes: Seq<u8>, k: int, sep: char) -> bool {
    let e = encode_scalar(sep as u32);
    0 <= k && k + e.len() <= bytes.len() && bytes.subrange(k, k + e.len()) == e
}

/// A prefix of `k` bytes splits no token: it is all of `bytes`, or a separator follows it.
pub open spec fn ends_token(bytes: Seq<u8>, k: int, sep: char) -> bool {
    k == bytes.len() || sep_at(bytes, k, sep)
}

/// The greatest length up to `cap` at which a prefix of `bytes` splits no
/// token, or 0 where there is none.
pub open spec fn trimmed_len(bytes: Seq<u8>, cap: nat, sep: char) -> nat
    decreases cap,
{
    if cap == 0 {
        0
    } else if ends_token(bytes, cap as int, sep) {
        cap
    } else {
        trimmed_len(bytes, (cap - 1) as nat, sep)
    }
}

/// What a cell of capacity `cap` keeps of `bytes` when it may not split a
/// token: all of it where it fits, else the longest prefix within the
/// capacity that a separator follows.
pub open spec fn trimmed(bytes: Seq<u8>, cap: nat, sep: char) -> Seq<u8> {
    if bytes.len() <= cap {
        bytes
    } else {
        bytes.take(trimmed_len(bytes, cap, sep) as int)
    }
}

/// The text that `bytes` encode.
pub open spec fn text_of(bytes: Seq<u8>) -> Seq<char> {
    decode_utf8(bytes)
}

/// The storage `base` with its first `k` bytes replaced by those of `content`.
pub open spec fn overwritten<const N: usize>(base: [u8; N], content: Seq<u8>, k: nat) -> [u8; N]
    decreases k,
{
    if k == 0 {
        base
    } else {
        vstd::array::spec_array_update(
            overwritten(base, content, (k - 1) as nat),
            k - 1,
            content[k - 1],
        )
    }
}

/// The bytes of a storage of which the first `k` were replaced.
pub proof fn lemma_overwritten<const N: usize>(base: [u8; N], content: Seq<u8>, k: nat)
    requires
        k <= content.len(),
        k <= N,
    ensures
        overwritten(base, content, k)@ == content.take(k as int) + base@.skip(k as int),
    decreases k,
{
    if k == 0 {
        assert(base@ =~= content.take(0) + base@.skip(0));
    } else {
        let before = overwritten(base, content, (k - 1) as nat);
        lemma_overwritten(base, content, (k - 1) as nat);
        assert(before@.update(k - 1, content[k - 1]) =~= content.take(k as int) + base@.skip(
            k as int,
        ));
    }
}

impl<const N: usize> View for StrBuff<N> {
    type V = Seq<u8>;

    /// The content: the bytes in use.
    open spec fn view(&self) -> Seq<u8> {
        self.buff@.take(self.len as int)
    }
}

impl<const N: usize> StrBuff<N> {
    /// The length lies within the capacity.
    pub open spec fn wf(&self) -> bool {
        self.len <= N
    }

    /// The empty cell: no byte in use, and every byte of the storage 0.
    pub open spec fn empty() -> Self {
        StrBuff { len: 0, buff: [0u8; N] }
    }

    /// The cell with `bytes`, cut to the capacity, stored over the contents
    /// of `self`: the storage behind them stays as it is.
    pub open spec fn with(self, bytes: Seq<u8>) -> Self {
        let content = kept(bytes, N as nat);
        StrBuff { len: content.len() as usize, buff: overwritten(self.buff, content, content.len()) }
    }

    /// What a cell holds after `bytes` were stored in it.
    pub proof fn lemma_with(self, bytes: Seq<u8>)
        ensures
            self.with(bytes).wf(),
            self.with(bytes)@ == kept(bytes, N as nat),
    {
        let content = kept(bytes, N as nat);
        lemma_overwritten(self.buff, content, content.len());
        assert(self.with(bytes)@ =~= content);
    }

    /// An empty cell.
    pub fn new() -> (r: Self)
        ensures
            r == Self::empty(),
            r.wf(),
            r.len == 0,
            r@ == Seq::<u8>::empty(),
    {
        Self { len: 0, buff: [0u8; N] }
    }

    /// A cell that holds `value`, cut to the capacity.
    pub fn of(value: &str) -> (r: Self)
        ensures
            r == Self::empty().with(value.spec_bytes()),
            r.wf(),
            r@ == kept(value.spec_bytes(), N as nat),
    {
        let mut r = Self::new();
        r.set(value);
        r
    }

    /// A cell that holds the text of `value`, cut to the capacity; an empty cell for `None`.
    pub fn of_opt(value: Option<String>) -> (r: Self)
        ensures
            r == match value {
                Some(s) => Self::empty().with(encode_utf8(s@)),
                None => Self::empty(),
            },
            r.wf(),
            r@ == match value {
                Some(s) => kept(encode_utf8(s@), N as nat),
                None => Seq::<u8>::empty(),
            },
    {
        match value {
            Some(s) => Self::of(s.as_str()),
            None => Self::new(),
        }
    }

    /// Empties the cell and returns a copy of it.
    pub fn reset(&mut self) -> (r: Self)
        ensures
            final(self).len == 0,
            final(self).buff == old(self).buff,
            final(self)@ == Seq::<u8>::empty(),
            r == *final(self),
    {
        self.len = 0;
        *self
    }

    /// Stores the bytes of `value`, cut to the capacity, and returns a copy of the cell.
    pub fn set(&mut self, value: &str) -> (r: Self)
        ensures
            *final(self) == old(self).with(value.spec_bytes()),
            final(self).wf(),
            final(self)@ == kept(value.spec_bytes(), N as nat),
            r == *final(self),
    {
        let bytes = value.as_bytes();
        let mut len: usize = bytes.len();
        if len > N {
            len = N;
        }
        self.len = len;
        let mut i: usize = 0;
        while i < len
            invariant
                i <= len,
                len <= N,
                len <= bytes@.len(),
                self.len == len,
                forall|j: int| 0 <= j < i ==> self.buff@[j] == bytes@[j],
                forall|j: int| i <= j < N ==> self.buff@[j] == old(self).buff@[j],
            decreases len - i,
        {
            self.buff[i] = bytes[i];
            i += 1;
        }
        proof {
            let content = kept(value.spec_bytes(), N as nat);
            assert(self@ =~= content);
            lemma_overwritten(old(self).buff, content, content.len());
            assert(self.buff@ =~= content + old(self).buff@.skip(content.len() as int));
            assert(self.buff =~= old(self).with(value.spec_bytes()).buff);
        }
        *self
    }

    /// Stores `value` without splitting a token, and returns a copy of the cell.
    ///
    /// A `value` that fits is stored whole. A longer one is cut to its longest
    /// prefix within the capacity that `trim` follows; where `trim` follows no
    /// such prefix the cell becomes empty.
    pub fn set_trim(&mut self, value: &str, trim: char) -> (r: Self)
        ensures
            final(self).wf(),
            final(self)@ == trimmed(value.spec_bytes(), N as nat, trim),
            final(self).is_text(),
            r == *final(self),
    {
        let bytes = value.as_bytes();
        let sep = encode_char(trim);
        let mut len: usize = bytes.len();
        if len > N {
            len = N;
            while len > 0 && !starts_at(bytes, len, sep.as_slice())
                invariant
                    len <= N < bytes@.len(),
                    sep@ == encode_scalar(trim as u32),
                    trimmed_len(bytes@, N as nat, trim) == trimmed_len(bytes@, len as nat, trim),
                decreases len,
            {
                len -= 1;
            }
        }
        self.len = len;
        let mut i: usize = 0;
        while i < len
            invariant
                i <= len,
                len <= N,
                len <= bytes@.len(),
                self.len == len,
                forall|j: int| 0 <= j < i ==> self.buff@[j] == bytes@[j],
            decreases len - i,
        {
            self.buff[i] = bytes[i];
            i += 1;
        }
        proof {
            assert(self@ =~= trimmed(value.spec_bytes(), N as nat, trim));
            lemma_trimmed_is_text(value@, N as nat, trim);
        }
        *self
    }

    /// The content is well-formed UTF-8.
    pub open spec fn is_text(&self) -> bool {
        valid_utf8(self@)
    }

    /// Whether the content is well-formed UTF-8, so that it can be read as text.
    pub fn has_text(&self) -> (r: bool)
        requires
            self.wf(),
        ensures
            r == self.is_text(),
    {
        decode(slice_subrange(self.buff.as_slice(), 0, self.len)).is_some()
    }

    /// The content as text.
    pub fn text(&self) -> (r: String)
        requires
            self.wf(),
            self.is_text(),
        ensures
            r@ == text_of(self@),
    {
        match decode(slice_subrange(self.buff.as_slice(), 0, self.len)) {
            Some(s) => s,
            None => String::new(),
        }
    }

    /// The content as text, or `None` for an empty cell.
    pub fn to_opt(self) -> (r: Option<String>)
        requires
            self.wf(),
            self.is_text(),
        ensures
            r is None <==> self.len == 0,
            r matches Some(s) ==> s@ == text_of(self@),
    {
        if self.len == 0 {
            return None;
        }
        Some(self.text())
    }
}

impl<'a, const N: usize> From<&'a str> for StrBuff<N> {
    /// A cell that holds `value`, cut to the capacity.
    fn from(value: &'a str) -> (r: Self) {
        Self::of(value)
    }
}

impl<'a, const N: usize> vstd::std_specs::convert::FromSpecImpl<&'a str> for StrBuff<N> {
    open spec fn obeys_from_spec() -> bool {
        true
    }

    open spec fn from_spec(value: &'a str) -> Self {
        Self::empty().with(value.spec_bytes())
    }
}

impl<const N: usize> From<String> for StrBuff<N> {
    /// A cell that holds `value`, cut to the capacity.
    fn from(value: String) -> (r: Self) {
        Self::of(value.as_str())
    }
}

impl<const N: usize> vstd::std_specs::convert::FromSpecImpl<String> for StrBuff<N> {
    open spec fn obeys_from_spec() -> bool {
        true
    }

    open spec fn from_spec(value: String) -> Self {
        Self::empty().with(encode_utf8(value@))
    }
}

impl<const N: usize> From<Option<String>> for StrBuff<N> {
    /// A cell that holds the text of `value`, cut to the capacity; an empty cell for `None`.
    fn from(value: Option<String>) -> (r: Self) {
        Self::of_opt(value)
    }
}

impl<const N: usize> vstd::std_specs::convert::FromSpecImpl<Option<String>> for StrBuff<N> {
    open spec fn obeys_from_spec() -> bool {
        true
    }

    open spec fn from_spec(value: Option<String>) -> Self {
        match value {
            Some(s) => Self::empty().with(encode_utf8(s@)),
            None => Self::empty(),
        }
    }
}

/// Reads `bytes` as UTF-8 text with `std::str::from_utf8`: `Some` exactly for
/// well-formed UTF-8, and then the text that the bytes encode.
#[verifier::external_body]
fn decode(bytes: &[u8]) -> (r: Option<String>)
    ensures
        r is Some <==> valid_utf8(bytes@),
        r matches Some(s) ==> s@ == decode_utf8(bytes@),
{
    match std::str::from_utf8(bytes) {
        Ok(s) => Some(s.to_string()),
        Err(_) => None,
    }
}

/// The UTF-8 encoding of one character.
pub fn encode_char(c: char) -> (r: Vec<u8>)
    ensures
        r@ == encode_scalar(c as u32),
{
    let v: u32 = c as u32;
    proof {
        char_is_scalar(c);
    }
    let mut r: Vec<u8> = Vec::new();
    if v <= 0x7F {
        r.push((v & 0x7F) as u8);
    } else if v <= 0x7FF {
        r.push(0xC0 | ((v >> 6) & 0x1F) as u8);
        r.push(0x80 | (v & 0x3F) as u8);
    } else if v <= 0xFFFF {
        r.push(0xE0 | ((v >> 12) & 0x0F) as u8);
        r.push(0x80 | ((v >> 6) & 0x3F) as u8);
        r.push(0x80 | (v & 0x3F) as u8);
    } else {
        r.push(0xF0 | ((v >> 18) & 0x7) as u8);
        r.push(0x80 | ((v >> 12) & 0x3F) as u8);
        r.push(0x80 | ((v >> 6) & 0x3F) as u8);
        r.push(0x80 | (v & 0x3F) as u8);
    }
    assert(r@ =~= encode_scalar(c as u32));
    r
}

/// Whether `pat` stands in `bytes` from position `k` on.
pub fn starts_at(bytes: &[u8], k: usize, pat: &[u8]) -> (r: bool)
    ensures
        r == (k + pat@.len() <= bytes@.len() && bytes@.subrange(
            k as int,
            k + pat@.len(),
        ) == pat@),
{
    if k > bytes.len() || pat.len() > bytes.len() - k {
        return false;
    }
    let mut i: usize = 0;
    while i < pat.len()
        invariant
            i <= pat@.len(),
            k + pat@.len() <= bytes@.len() <= usize::MAX,
            forall|j: int| 0 <= j < i ==> bytes@[k + j] == pat@[j],
        decreases pat@.len() - i,
    {
        if bytes[k + i] != pat[i] {
            assert(bytes@.subrange(k as int, k + pat@.len())[i as int] != pat@[i as int]);
            return false;
        }
        i += 1;
    }
    assert(bytes@.subrange(k as int, k + pat@.len()) =~= pat@);
    true
}

/// The encoding of a character begins with a byte that no character's
/// encoding continues with.
pub proof fn lemma_encoding_starts_character(c: char)
    ensures
        encode_scalar(c as u32).len() >= 1,
        !is_continuation_byte(encode_scalar(c as u32)[0]),
{
    let v = c as u32;
    char_is_scalar(c);
    assert(!(0x80 <= ((v & 0x7F) as u8) <= 0xbf)) by (bit_vector);
    assert(!(0x80 <= (0xC0u8 | ((v >> 6) & 0x1F) as u8) <= 0xbf)) by (bit_vector);
    assert(!(0x80 <= (0xE0u8 | ((v >> 12) & 0x0F) as u8) <= 0xbf)) by (bit_vector);
    assert(!(0x80 <= (0xF0u8 | ((v >> 18) & 0x7) as u8) <= 0xbf)) by (bit_vector);
}

/// The encoding of a text in two parts is the encoding of the first part,
/// then that of the second.
pub proof fn lemma_encode_concat(a: Seq<char>, b: Seq<char>)
    ensures
        encode_utf8(a + b) == encode_utf8(a) + encode_utf8(b),
    decreases a.len(),
{
    if a.len() == 0 {
        assert(a + b =~= b);
        assert(encode_utf8(a) + encode_utf8(b) =~= encode_utf8(b));
    } else {
        lemma_encode_concat(a.drop_first(), b);
        assert((a + b).drop_first() =~= a.drop_first() + b);
        assert(encode_utf8(a + b) =~= encode_utf8(a) + encode_utf8(b));
    }
}

/// Every byte of `s` is an ASCII character.
pub open spec fn is_ascii_bytes(s: Seq<u8>) -> bool {
    forall|i: int| 0 <= i < s.len() ==> #[trigger] s[i] < 0x80
}

/// ASCII characters are well-formed UTF-8, wherever they are cut.
pub proof fn lemma_ascii_is_text(s: Seq<u8>)
    requires
        is_ascii_bytes(s),
    ensures
        valid_utf8(s),
{
    assert(s.subrange(0, 0) =~= Seq::<u8>::empty());
    assert(partial_valid_utf8(s, 0));
    assert forall|i: int| 0 <= 0 <= i < s.len() <= s.len() implies #[trigger] is_leading_byte_width_1(
        s[i],
    ) by {}
    partial_valid_utf8_extend_ascii_block(s, 0, s.len() as int);
    assert(s.subrange(0, s.len() as int) =~= s);
}

/// What a cell keeps of ASCII characters can be read as text, with or without trimming.
pub proof fn lemma_ascii_stays_text(s: Seq<u8>, cap: nat, sep: char)
    requires
        is_ascii_bytes(s),
    ensures
        is_ascii_bytes(kept(s, cap)),
        is_ascii_bytes(trimmed(s, cap, sep)),
        valid_utf8(kept(s, cap)),
        valid_utf8(trimmed(s, cap, sep)),
{
    lemma_trimmed_splits_no_token(s, cap, sep);
    lemma_ascii_is_text(kept(s, cap));
    lemma_ascii_is_text(trimmed(s, cap, sep));
}

/// A text that fits a cell is stored whole and read back unchanged.
pub proof fn lemma_store_then_read(text: Seq<char>, cap: nat)
    requires
        encode_utf8(text).len() <= cap,
    ensures
        kept(encode_utf8(text), cap) == encode_utf8(text),
        valid_utf8(kept(encode_utf8(text), cap)),
        text_of(kept(encode_utf8(text), cap)) == text,
{
    encode_utf8_valid_utf8(text);
    encode_utf8_decode_utf8(text);
}

/// What a cell keeps of a text is a prefix of the text's bytes within the capacity.
pub proof fn lemma_kept_is_prefix(bytes: Seq<u8>, cap: nat)
    ensures
        kept(bytes, cap).len() <= cap,
        kept(bytes, cap).is_prefix_of(bytes),
        bytes.len() >= cap ==> kept(bytes, cap).len() == cap,
{
}

/// Trimming splits no token: what is kept is the longest prefix of the
/// bytes, within the capacity, that is all of them or is followed by a
/// separator; where there is no such prefix, nothing is kept.
pub proof fn lemma_trimmed_splits_no_token(bytes: Seq<u8>, cap: nat, sep: char)
    ensures
        trimmed(bytes, cap, sep).len() <= cap,
        trimmed(bytes, cap, sep).is_prefix_of(bytes),
        trimmed(bytes, cap, sep).len() == 0 || ends_token(
            bytes,
            trimmed(bytes, cap, sep).len() as int,
            sep,
        ),
        forall|j: int|
            trimmed(bytes, cap, sep).len() < j <= cap && j <= bytes.len() ==> !#[trigger] ends_token(
                bytes,
                j,
                sep,
            ),
{
    if bytes.len() > cap {
        lemma_trimmed_len(bytes, cap, sep);
    }
}

/// The trimmed length lies within the capacity, and the prefix of that
/// length is empty or splits no token.
pub proof fn lemma_trimmed_len(bytes: Seq<u8>, cap: nat, sep: char)
    ensures
        trimmed_len(bytes, cap, sep) <= cap,
        trimmed_len(bytes, cap, sep) == 0 || ends_token(
            bytes,
            trimmed_len(bytes, cap, sep) as int,
            sep,
        ),
        forall|j: int|
            trimmed_len(bytes, cap, sep) < j <= cap ==> !#[trigger] ends_token(bytes, j, sep),
    decreases cap,
{
    if cap > 0 && !ends_token(bytes, cap as int, sep) {
        lemma_trimmed_len(bytes, (cap - 1) as nat, sep);
    }
}

/// What is kept of a text when no token may be split is a prefix of the
/// text's bytes, holds whole characters only, and is the whole text where
/// that fits.
pub proof fn lemma_trimmed_is_text(text: Seq<char>, cap: nat, sep: char)
    ensures
        trimmed(encode_utf8(text), cap, sep).len() <= cap,
        trimmed(encode_utf8(text), cap, sep).is_prefix_of(encode_utf8(text)),
        valid_utf8(trimmed(encode_utf8(text), cap, sep)),
        encode_utf8(text).len() <= cap ==> text_of(trimmed(encode_utf8(text), cap, sep)) == text,
{
    let bytes = encode_utf8(text);
    encode_utf8_valid_utf8(text);
    encode_utf8_decode_utf8(text);
    if bytes.len() > cap {
        let k = trimmed_len(bytes, cap, sep) as int;
        lemma_trimmed_len(bytes, cap, sep);
        if k == 0 {
            assert(bytes.take(0) =~= Seq::<u8>::empty());
        } else {
            lemma_encoding_starts_character(sep);
            let e = encode_scalar(sep as u32);
            assert(bytes.subrange(k, k + e.len())[0] == e[0]);
            is_char_boundary_iff_not_is_continuation_byte(bytes, k);
            valid_utf8_split(bytes, k);
        }
    }
}

} // verus!
