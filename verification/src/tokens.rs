//! A line of text as the tokens that single spaces separate.

use vstd::prelude::*;
use vstd::string::StringSliceAdditionalSpecFns;
use vstd::utf8::*;

verus! {

/// The byte that separates the tokens of a line: a space.
pub open spec fn space() -> u8 {
    0x20
}

/// The position of the first space in `s`, or the length of `s` where it holds none.
pub open spec fn first_space(s: Seq<u8>) -> int
    decreases s.len(),
{
    if s.len() == 0 || s[0] == space() {
        0
    } else {
        1 + first_space(s.drop_first())
    }
}

/// The pieces of `s` between its spaces, in order. Two spaces in a row hold
/// an empty token between them, and a line without a space is one token.
pub open spec fn tokens(s: Seq<u8>) -> Seq<Seq<u8>>
    decreases s.len(),
{
    let e = first_space(s);
    if 0 <= e < s.len() {
        seq![s.take(e)] + tokens(s.skip(e + 1))
    } else {
        seq![s]
    }
}

/// The first space lies within the line, with no space before it.
pub proof fn lemma_first_space(s: Seq<u8>)
    ensures
        0 <= first_space(s) <= s.len(),
        first_space(s) < s.len() ==> s[first_space(s)] == space(),
        forall|i: int| 0 <= i < first_space(s) ==> s[i] != space(),
    decreases s.len(),
{
    if s.len() == 0 || s[0] == space() {
    } else {
        let t = s.drop_first();
        lemma_first_space(t);
        assert forall|i: int| 0 <= i < first_space(s) implies s[i] != space() by {
            if i > 0 {
                assert(s[i] == t[i - 1]);
            }
        }
    }
}

/// A position up to which `s` holds no space, and at which it ends or holds
/// one, is the position of its first space.
pub proof fn lemma_first_space_is(s: Seq<u8>, e: int)
    requires
        0 <= e <= s.len(),
        forall|i: int| 0 <= i < e ==> s[i] != space(),
        e < s.len() ==> s[e] == space(),
    ensures
        first_space(s) == e,
{
    lemma_first_space(s);
    let f = first_space(s);
    if f < e {
        assert(s[f] == space());
    }
}

/// The tokens `toks` with a space between each two.
pub open spec fn joined(toks: Seq<Seq<u8>>) -> Seq<u8>
    decreases toks.len(),
{
    if toks.len() == 0 {
        Seq::empty()
    } else if toks.len() == 1 {
        toks[0]
    } else {
        toks[0] + seq![space()] + joined(toks.drop_first())
    }
}

/// The tokens of a line are the line cut at its spaces: no token holds a
/// space, and the tokens with a space between each two are the line again.
pub proof fn lemma_tokens_split_at_spaces(s: Seq<u8>)
    ensures
        tokens(s).len() >= 1,
        forall|k: int, i: int|
            0 <= k < tokens(s).len() && 0 <= i < tokens(s)[k].len() ==> #[trigger] tokens(s)[k][i]
                != space(),
        joined(tokens(s)) == s,
    decreases s.len(),
{
    lemma_first_space(s);
    let e = first_space(s);
    if e < s.len() {
        let rest = s.skip(e + 1);
        lemma_tokens_split_at_spaces(rest);
        let toks = tokens(s);
        assert(toks.drop_first() =~= tokens(rest));
        assert(joined(toks) =~= s);
        assert forall|k: int, i: int|
            0 <= k < toks.len() && 0 <= i < toks[k].len() implies #[trigger] toks[k][i]
            != space() by {
            if k > 0 {
                assert(toks[k] == tokens(rest)[k - 1]);
            }
        }
    } else {
        assert(s.take(e) =~= s);
    }
}

/// Whether two byte strings are equal.
pub fn bytes_eq(a: &[u8], b: &[u8]) -> (r: bool)
    ensures
        r == (a@ == b@),
{
    if a.len() != b.len() {
        return false;
    }
    let mut i: usize = 0;
    while i < a.len()
        invariant
            i <= a@.len(),
            a@.len() == b@.len(),
            forall|j: int| 0 <= j < i ==> a@[j] == b@[j],
        decreases a@.len() - i,
    {
        if a[i] != b[i] {
            return false;
        }
        i += 1;
    }
    assert(a@ =~= b@);
    true
}

/// Whether `token` is the word `word`.
pub fn is_word(token: &str, word: &str) -> (r: bool)
    ensures
        r == (token.spec_bytes() == word.spec_bytes()),
{
    bytes_eq(token.as_bytes(), word.as_bytes())
}

/// Splits the first token off `line`: the token, and what follows the space
/// behind it, or `None` where the token ends the line.
pub fn next_token<'a>(line: &'a str) -> (r: (&'a str, Option<&'a str>))
    ensures
        ({
            let s = line.spec_bytes();
            let e = first_space(s);
            &&& r.0.spec_bytes() == s.take(e)
            &&& r.1 is Some <==> e < s.len()
            &&& r.1 matches Some(rest) ==> rest.spec_bytes() == s.skip(e + 1)
        }),
{
    let bytes = line.as_bytes();
    let n: usize = bytes.len();
    let mut e: usize = 0;
    while e < n && bytes[e] != 0x20
        invariant
            e <= n,
            n == bytes@.len(),
            forall|i: int| 0 <= i < e ==> bytes@[i] != space(),
        decreases n - e,
    {
        e += 1;
    }
    proof {
        lemma_first_space_is(bytes@, e as int);
        encode_utf8_valid_utf8(line@);
        if e < n {
            is_char_boundary_iff_not_is_continuation_byte(bytes@, e as int);
        } else {
            is_char_boundary_start_end_of_seq(bytes@);
        }
    }
    let (token, tail) = line.split_at(e);
    if e == n {
        return (token, None);
    }
    proof {
        let t = tail.spec_bytes();
        encode_utf8_valid_utf8(tail@);
        assert(t[0] == space());
        reveal_with_fuel(is_char_boundary, 2);
        reveal_with_fuel(valid_utf8, 2);
        assert(is_char_boundary(t, 1));
    }
    let (_, rest) = tail.split_at(1);
    assert(rest.spec_bytes() =~= line.spec_bytes().skip(e + 1));
    (token, Some(rest))
}

/// A line has at least one token.
pub proof fn lemma_tokens_nonempty(s: Seq<u8>)
    ensures
        tokens(s).len() >= 1,
        tokens(s)[0] == s.take(first_space(s)),
{
    lemma_first_space(s);
    if !(first_space(s) < s.len()) {
        assert(s.take(first_space(s)) =~= s);
    }
}

/// The tokens of a line of ASCII characters are ASCII characters.
pub proof fn lemma_tokens_of_ascii(s: Seq<u8>, k: int)
    requires
        forall|i: int| 0 <= i < s.len() ==> #[trigger] s[i] < 0x80,
        0 <= k < tokens(s).len(),
    ensures
        forall|i: int| 0 <= i < tokens(s)[k].len() ==> #[trigger] tokens(s)[k][i] < 0x80,
    decreases s.len(),
{
    lemma_first_space(s);
    let e = first_space(s);
    if e < s.len() {
        if k > 0 {
            let rest = s.skip(e + 1);
            assert(tokens(s)[k] == tokens(rest)[k - 1]);
            lemma_tokens_of_ascii(rest, k - 1);
        }
    }
}

/// The token of `line` at position `k`, counted from 0, if the line has so many.
pub fn token_at<'a>(line: &'a str, k: usize) -> (r: Option<&'a str>)
    ensures
        r is Some <==> k < tokens(line.spec_bytes()).len(),
        r matches Some(t) ==> t.spec_bytes() == tokens(line.spec_bytes())[k as int],
{
    let ghost all = tokens(line.spec_bytes());
    let mut cur: &str = line;
    let mut i: usize = 0;
    loop
        invariant
            i <= k,
            all == tokens(line.spec_bytes()),
            i < all.len(),
            all.skip(i as int) =~= tokens(cur.spec_bytes()),
        decreases cur.spec_bytes().len(),
    {
        let ghost s = cur.spec_bytes();
        let (token, rest) = next_token(cur);
        proof {
            lemma_first_space(s);
            lemma_tokens_nonempty(s);
            assert(all[i as int] == all.skip(i as int)[0]);
        }
        if i == k {
            return Some(token);
        }
        match rest {
            None => {
                assert(tokens(s).len() == 1);
                assert(all.skip(i as int).len() == 1);
                return None;
            },
            Some(tail) => {
                proof {
                    let e = first_space(s);
                    lemma_tokens_nonempty(tail.spec_bytes());
                    assert(tokens(s).drop_first() =~= tokens(s.skip(e + 1)));
                    assert(all.skip(i as int).drop_first() =~= all.skip(i + 1));
                }
                cur = tail;
                i += 1;
            },
        }
    }
}

} // verus!
