//! Mathematical model of the compressed stream format.
//!
//! A compressed stream is a 4-byte little-endian length header followed by
//! groups: one control byte whose bits (low to high) flag the following
//! tokens as literals (bit clear, one byte) or matches (bit set, two
//! distance bytes little-endian plus one length-code byte).
//!
//! `decode_from` models the decoder exactly, including its lenient handling
//! of truncated and corrupt input.  `decode_tokens` gives the meaning of a
//! token sequence; the lemmas at the end connect an encoded token sequence
//! to what the decoder reconstructs from it, which is what the round-trip
//! contract of the codec rests on.

use vstd::prelude::*;

verus! {

/// The original length recorded in the first four bytes of a compressed
/// stream, read little-endian.
pub open spec fn header_value(s: Seq<u8>) -> nat
    recommends
        s.len() >= 4,
{
    s[0] as nat + 256 * (s[1] as nat) + 65536 * (s[2] as nat) + 16777216 * (s[3] as nat)
}

/// Bit `bit` (low to high) of a control byte.
pub open spec fn ctrl_bit(c: u8, bit: u8) -> bool
    recommends
        bit < 8,
{
    c & (1u8 << bit) != 0
}

/// Adjust a reconstructed buffer to the length declared in the header:
/// excess is cut off, a shortfall is padded with zero bytes.
pub open spec fn fit_to(out: Seq<u8>, orig: nat) -> Seq<u8> {
    if out.len() >= orig {
        out.take(orig as int)
    } else {
        out + Seq::new((orig - out.len()) as nat, |i: int| 0u8)
    }
}

/// Append `count` bytes copied from `dist` bytes behind the end of `out`,
/// extending periodically when the copy overlaps its own output (the
/// self-referential case, `dist < count`).
pub open spec fn copy_append(out: Seq<u8>, dist: nat, count: nat) -> Seq<u8>
    recommends
        1 <= dist <= out.len(),
{
    out + Seq::new(count, |i: int| out[out.len() - dist + (i % dist as int)])
}

/// One step of the decoder, from byte position `pos`.
///
/// `bit == 8` stands for the head of the outer loop: stop if the input is
/// exhausted or the declared length `orig` has been reached, otherwise read
/// the next control byte.  `bit < 8` consumes the token flagged by that bit
/// of `control`: a match token that runs off the end of the input stops
/// decoding entirely, an out-of-range back-reference is skipped, and a copy
/// is cut short as soon as `orig` bytes exist.
pub open spec fn decode_from(
    input: Seq<u8>,
    pos: int,
    control: u8,
    bit: int,
    out: Seq<u8>,
    orig: nat,
    mm: nat,
) -> Seq<u8>
    decreases input.len() - pos, 8 - bit,
{
    if bit >= 8 {
        if pos >= input.len() || out.len() >= orig {
            fit_to(out, orig)
        } else {
            decode_from(input, pos + 1, input[pos], 0, out, orig, mm)
        }
    } else {
        if out.len() >= orig || pos >= input.len() {
            fit_to(out, orig)
        } else if ctrl_bit(control, bit as u8) {
            if pos + 2 >= input.len() {
                fit_to(out, orig)
            } else {
                let d = input[pos] as nat + 256 * (input[pos + 1] as nat);
                let l = input[pos + 2] as nat + mm;
                if d == 0 || d > out.len() {
                    decode_from(input, pos + 3, control, bit + 1, out, orig, mm)
                } else {
                    let cnt = if l <= orig - out.len() {
                        l
                    } else {
                        (orig - out.len()) as nat
                    };
                    decode_from(input, pos + 3, control, bit + 1, copy_append(out, d, cnt), orig, mm)
                }
            }
        } else {
            decode_from(input, pos + 1, control, bit + 1, out.push(input[pos]), orig, mm)
        }
    }
}

/// What the decoder returns on an arbitrary input stream.
pub open spec fn spec_decompress(input: Seq<u8>, mm: nat) -> Seq<u8> {
    if input.len() < 5 {
        Seq::empty()
    } else {
        decode_from(input, 4, 0, 8, Seq::empty(), header_value(input), mm)
    }
}

/// A literal byte, or a back-reference of `dist` bytes whose length is
/// `code` plus the codec's minimum match length.
pub enum Token {
    Literal(u8),
    Match { dist: u16, code: u8 },
}

/// How many output bytes a token stands for.
pub open spec fn token_out_len(t: Token, mm: nat) -> nat {
    match t {
        Token::Literal(_) => 1,
        Token::Match { dist: _, code } => code as nat + mm,
    }
}

/// The bytes a token adds to a reconstruction `out`.
pub open spec fn apply_token(out: Seq<u8>, t: Token, mm: nat) -> Seq<u8> {
    match t {
        Token::Literal(b) => out.push(b),
        Token::Match { dist, code } => copy_append(out, dist as nat, code as nat + mm),
    }
}

/// Decode a whole token sequence on top of `out`.
pub open spec fn decode_tokens(out: Seq<u8>, toks: Seq<Token>, mm: nat) -> Seq<u8>
    decreases toks.len(),
{
    if toks.len() == 0 {
        out
    } else {
        decode_tokens(apply_token(out, toks[0], mm), toks.drop_first(), mm)
    }
}

/// Total output length of a token sequence.
pub open spec fn tokens_out_len(toks: Seq<Token>, mm: nat) -> nat
    decreases toks.len(),
{
    if toks.len() == 0 {
        0
    } else {
        token_out_len(toks[0], mm) + tokens_out_len(toks.drop_first(), mm)
    }
}

/// A match token must reference bytes that already exist when it is decoded:
/// distance at least one and at most the bytes produced so far.
pub open spec fn token_valid(out_len: nat, t: Token) -> bool {
    match t {
        Token::Literal(_) => true,
        Token::Match { dist, code: _ } => 1 <= dist as nat && dist as nat <= out_len,
    }
}

/// Validity of a token sequence decoded on top of `out_len` existing bytes.
pub open spec fn tokens_valid(out_len: nat, toks: Seq<Token>, mm: nat) -> bool
    decreases toks.len(),
{
    toks.len() == 0 || (token_valid(out_len, toks[0]) && tokens_valid(
        out_len + token_out_len(toks[0], mm),
        toks.drop_first(),
        mm,
    ))
}

/// The byte encoding of one token.
pub open spec fn enc_token(t: Token) -> Seq<u8> {
    match t {
        Token::Literal(b) => seq![b],
        Token::Match { dist, code } => seq![
            (dist as nat % 256) as u8,
            (dist as nat / 256) as u8,
            code,
        ],
    }
}

/// The byte encoding of a token sequence, without control bytes.
pub open spec fn enc_tokens(toks: Seq<Token>) -> Seq<u8>
    decreases toks.len(),
{
    if toks.len() == 0 {
        Seq::empty()
    } else {
        enc_token(toks[0]) + enc_tokens(toks.drop_first())
    }
}

pub open spec fn is_match_token(t: Token) -> bool {
    t is Match
}

/// The low bits of a control byte flag each token of its group.
pub open spec fn control_matches(c: u8, toks: Seq<Token>) -> bool
    recommends
        toks.len() <= 8,
{
    forall|j: int| 0 <= j < toks.len() ==> ctrl_bit(c, j as u8) == is_match_token(toks[j])
}

/// `s` is exactly the group encoding of `toks`: groups of eight tokens
/// (the last possibly shorter), each preceded by a matching control byte.
pub open spec fn encodes_groups(s: Seq<u8>, toks: Seq<Token>) -> bool
    decreases toks.len(),
{
    if toks.len() == 0 {
        s.len() == 0
    } else {
        let g = if toks.len() >= 8 {
            8int
        } else {
            toks.len() as int
        };
        let body = enc_tokens(toks.take(g));
        &&& s.len() >= 1 + body.len()
        &&& control_matches(s[0], toks.take(g))
        &&& s.subrange(1, 1 + body.len() as int) == body
        &&& encodes_groups(s.skip(1 + body.len() as int), toks.skip(g))
    }
}

/// Whatever the input, the decoder produces exactly `orig` bytes.
pub proof fn lemma_decode_from_len(
    input: Seq<u8>,
    pos: int,
    control: u8,
    bit: int,
    out: Seq<u8>,
    orig: nat,
    mm: nat,
)
    ensures
        decode_from(input, pos, control, bit, out, orig, mm).len() == orig,
    decreases input.len() - pos, 8 - bit,
{
    if bit >= 8 {
        if pos >= input.len() || out.len() >= orig {
        } else {
            lemma_decode_from_len(input, pos + 1, input[pos], 0, out, orig, mm);
        }
    } else {
        if out.len() >= orig || pos >= input.len() {
        } else if ctrl_bit(control, bit as u8) {
            if pos + 2 >= input.len() {
            } else {
                let d = input[pos] as nat + 256 * (input[pos + 1] as nat);
                let l = input[pos + 2] as nat + mm;
                if d == 0 || d > out.len() {
                    lemma_decode_from_len(input, pos + 3, control, bit + 1, out, orig, mm);
                } else {
                    let cnt = if l <= orig - out.len() {
                        l
                    } else {
                        (orig - out.len()) as nat
                    };
                    lemma_decode_from_len(
                        input,
                        pos + 3,
                        control,
                        bit + 1,
                        copy_append(out, d, cnt),
                        orig,
                        mm,
                    );
                }
            }
        } else {
            lemma_decode_from_len(input, pos + 1, control, bit + 1, out.push(input[pos]), orig, mm);
        }
    }
}

/// The decoder's output length is the declared original length, or zero for
/// an input too short to carry a header and a control byte.
pub proof fn lemma_spec_decompress_len(input: Seq<u8>, mm: nat)
    ensures
        spec_decompress(input, mm).len() == if input.len() < 5 {
            0nat
        } else {
            header_value(input)
        },
{
    if input.len() >= 5 {
        lemma_decode_from_len(input, 4, 0, 8, Seq::empty(), header_value(input), mm);
    }
}

/// Decoding a token appended at the end happens after all the others.
pub proof fn lemma_decode_tokens_snoc(out: Seq<u8>, toks: Seq<Token>, t: Token, mm: nat)
    ensures
        decode_tokens(out, toks.push(t), mm) == apply_token(decode_tokens(out, toks, mm), t, mm),
    decreases toks.len(),
{
    if toks.len() == 0 {
        assert(toks.push(t)[0] == t);
        assert(toks.push(t).drop_first() =~= Seq::<Token>::empty());
        assert(decode_tokens(out, toks.push(t), mm) == decode_tokens(
            apply_token(out, t, mm),
            Seq::<Token>::empty(),
            mm,
        ));
    } else {
        assert(toks.push(t)[0] == toks[0]);
        assert(toks.push(t).drop_first() =~= toks.drop_first().push(t));
        lemma_decode_tokens_snoc(apply_token(out, toks[0], mm), toks.drop_first(), t, mm);
        assert(decode_tokens(out, toks.push(t), mm) == decode_tokens(
            apply_token(out, toks[0], mm),
            toks.drop_first().push(t),
            mm,
        ));
    }
}

/// Output length of a token sequence with one token appended.
pub proof fn lemma_tokens_out_len_snoc(toks: Seq<Token>, t: Token, mm: nat)
    ensures
        tokens_out_len(toks.push(t), mm) == tokens_out_len(toks, mm) + token_out_len(t, mm),
    decreases toks.len(),
{
    if toks.len() == 0 {
        assert(toks.push(t)[0] == t);
        assert(toks.push(t).drop_first() =~= Seq::<Token>::empty());
        assert(tokens_out_len(toks.push(t), mm) == token_out_len(t, mm) + tokens_out_len(
            Seq::<Token>::empty(),
            mm,
        ));
    } else {
        assert(toks.push(t)[0] == toks[0]);
        assert(toks.push(t).drop_first() =~= toks.drop_first().push(t));
        lemma_tokens_out_len_snoc(toks.drop_first(), t, mm);
        assert(tokens_out_len(toks.push(t), mm) == token_out_len(toks[0], mm) + tokens_out_len(
            toks.drop_first().push(t),
            mm,
        ));
    }
}

/// Validity of a token sequence with one token appended.
pub proof fn lemma_tokens_valid_snoc(out_len: nat, toks: Seq<Token>, t: Token, mm: nat)
    requires
        tokens_valid(out_len, toks, mm),
        token_valid(out_len + tokens_out_len(toks, mm), t),
    ensures
        tokens_valid(out_len, toks.push(t), mm),
    decreases toks.len(),
{
    if toks.len() == 0 {
        assert(toks.push(t)[0] == t);
        assert(toks.push(t).drop_first() =~= Seq::<Token>::empty());
        assert(tokens_valid(out_len + token_out_len(t, mm), Seq::<Token>::empty(), mm));
    } else {
        assert(toks.push(t)[0] == toks[0]);
        assert(toks.push(t).drop_first() =~= toks.drop_first().push(t));
        lemma_tokens_valid_snoc(
            out_len + token_out_len(toks[0], mm),
            toks.drop_first(),
            t,
            mm,
        );
        assert(tokens_valid(
            out_len + token_out_len(toks[0], mm),
            toks.drop_first().push(t),
            mm,
        ));
    }
}

/// Byte encoding of a token sequence with one token appended.
pub proof fn lemma_enc_tokens_snoc(toks: Seq<Token>, t: Token)
    ensures
        enc_tokens(toks.push(t)) == enc_tokens(toks) + enc_token(t),
    decreases toks.len(),
{
    if toks.len() == 0 {
        assert(toks.push(t)[0] == t);
        assert(toks.push(t).drop_first() =~= Seq::<Token>::empty());
        assert(enc_tokens(toks.push(t)) == enc_token(t) + enc_tokens(Seq::<Token>::empty()));
        assert(enc_tokens(toks.push(t)) =~= enc_tokens(toks) + enc_token(t));
    } else {
        assert(toks.push(t)[0] == toks[0]);
        assert(toks.push(t).drop_first() =~= toks.drop_first().push(t));
        lemma_enc_tokens_snoc(toks.drop_first(), t);
        assert(enc_tokens(toks.push(t)) == enc_token(toks[0]) + enc_tokens(
            toks.drop_first().push(t),
        ));
        assert(enc_tokens(toks.push(t)) =~= enc_tokens(toks) + enc_token(t));
    }
}

/// Every token stands for at least one output byte, so a token sequence
/// produces at least as many bytes as it has tokens.
pub proof fn lemma_tokens_out_len_lower(toks: Seq<Token>, mm: nat)
    requires
        mm >= 1,
    ensures
        tokens_out_len(toks, mm) >= toks.len(),
    decreases toks.len(),
{
    if toks.len() > 0 {
        lemma_tokens_out_len_lower(toks.drop_first(), mm);
    }
}

/// A token sequence's encoding splits at any point.
pub proof fn lemma_enc_tokens_split(toks: Seq<Token>, g: int)
    requires
        0 <= g <= toks.len(),
    ensures
        enc_tokens(toks) == enc_tokens(toks.take(g)) + enc_tokens(toks.skip(g)),
    decreases g,
{
    if g == 0 {
        assert(toks.take(0) =~= Seq::<Token>::empty());
        assert(toks.skip(0) =~= toks);
        assert(enc_tokens(toks) =~= enc_tokens(toks.take(0)) + enc_tokens(toks.skip(0)));
    } else {
        assert(toks.take(g)[0] == toks[0]);
        assert(toks.take(g).drop_first() =~= toks.drop_first().take(g - 1));
        assert(toks.skip(g) =~= toks.drop_first().skip(g - 1));
        lemma_enc_tokens_split(toks.drop_first(), g - 1);
        assert(enc_tokens(toks) == enc_token(toks[0]) + enc_tokens(toks.drop_first()));
        assert(enc_tokens(toks.take(g)) == enc_token(toks[0]) + enc_tokens(
            toks.drop_first().take(g - 1),
        ));
        assert(enc_tokens(toks) =~= enc_tokens(toks.take(g)) + enc_tokens(toks.skip(g)));
    }
}

/// A group encoding spends one control byte per eight tokens (rounded up)
/// on top of the tokens' own bytes.
pub proof fn lemma_encodes_groups_len(s: Seq<u8>, toks: Seq<Token>)
    requires
        encodes_groups(s, toks),
    ensures
        s.len() == (toks.len() + 7) / 8 + enc_tokens(toks).len(),
    decreases toks.len(),
{
    if toks.len() == 0 {
        assert(enc_tokens(toks).len() == 0);
    } else {
        let g = if toks.len() >= 8 {
            8int
        } else {
            toks.len() as int
        };
        let body = enc_tokens(toks.take(g));
        let rest = s.skip(1 + body.len() as int);
        lemma_encodes_groups_len(rest, toks.skip(g));
        lemma_enc_tokens_split(toks, g);
        assert(s.len() == 1 + body.len() + rest.len());
        assert(toks.skip(g).len() == toks.len() - g);
    }
}

/// Every match token reaches back at most `window` bytes — the encoder's
/// window discipline, on top of the stream invariant that a distance never
/// exceeds what has been produced.
pub open spec fn tokens_in_window(toks: Seq<Token>, window: nat) -> bool
    decreases toks.len(),
{
    toks.len() == 0 || ((match toks[0] {
        Token::Literal(_) => true,
        Token::Match { dist, code: _ } => dist as nat <= window,
    }) && tokens_in_window(toks.drop_first(), window))
}

/// Window discipline of a token sequence with one token appended.
pub proof fn lemma_tokens_in_window_snoc(toks: Seq<Token>, t: Token, window: nat)
    requires
        tokens_in_window(toks, window),
        match t {
            Token::Literal(_) => true,
            Token::Match { dist, code: _ } => dist as nat <= window,
        },
    ensures
        tokens_in_window(toks.push(t), window),
    decreases toks.len(),
{
    if toks.len() == 0 {
        assert(toks.push(t)[0] == t);
        assert(toks.push(t).drop_first() =~= Seq::<Token>::empty());
        assert(tokens_in_window(Seq::<Token>::empty(), window));
        assert(tokens_in_window(toks.push(t), window));
    } else {
        assert(toks.push(t)[0] == toks[0]);
        assert(toks.push(t).drop_first() =~= toks.drop_first().push(t));
        lemma_tokens_in_window_snoc(toks.drop_first(), t, window);
        assert(tokens_in_window(toks.drop_first().push(t), window));
        assert(tokens_in_window(toks.push(t), window));
    }
}

/// Every match token stands for at least three output bytes — its own
/// encoded size — so no token's encoding is longer than what it stands
/// for.
pub open spec fn tokens_thrifty(toks: Seq<Token>, mm: nat) -> bool
    decreases toks.len(),
{
    toks.len() == 0 || ((match toks[0] {
        Token::Literal(_) => true,
        Token::Match { dist: _, code } => code as nat + mm >= 3,
    }) && tokens_thrifty(toks.drop_first(), mm))
}

/// Thriftiness of a token sequence with one token appended.
pub proof fn lemma_tokens_thrifty_snoc(toks: Seq<Token>, t: Token, mm: nat)
    requires
        tokens_thrifty(toks, mm),
        match t {
            Token::Literal(_) => true,
            Token::Match { dist: _, code } => code as nat + mm >= 3,
        },
    ensures
        tokens_thrifty(toks.push(t), mm),
    decreases toks.len(),
{
    if toks.len() == 0 {
        assert(toks.push(t)[0] == t);
        assert(toks.push(t).drop_first() =~= Seq::<Token>::empty());
        assert(tokens_thrifty(Seq::<Token>::empty(), mm));
        assert(tokens_thrifty(toks.push(t), mm));
    } else {
        assert(toks.push(t)[0] == toks[0]);
        assert(toks.push(t).drop_first() =~= toks.drop_first().push(t));
        lemma_tokens_thrifty_snoc(toks.drop_first(), t, mm);
        assert(tokens_thrifty(toks.drop_first().push(t), mm));
        assert(tokens_thrifty(toks.push(t), mm));
    }
}

/// For a thrifty token sequence the token bytes of the stream never exceed
/// the bytes they reconstruct.
pub proof fn lemma_enc_tokens_le_out_len(toks: Seq<Token>, mm: nat)
    requires
        tokens_thrifty(toks, mm),
    ensures
        enc_tokens(toks).len() <= tokens_out_len(toks, mm),
    decreases toks.len(),
{
    if toks.len() > 0 {
        lemma_enc_tokens_le_out_len(toks.drop_first(), mm);
    }
}

/// A fresh control byte has no bits set.
pub proof fn lemma_ctrl_bit_zero(j: u8)
    requires
        j < 8,
    ensures
        !ctrl_bit(0u8, j),
{
    assert(0u8 & (1u8 << j) == 0) by (bit_vector);
}

proof fn lemma_or_bit_other(c: u8, b: u8, j: u8)
    requires
        b < 8,
        j < 8,
        j != b,
    ensures
        ctrl_bit(c | (1u8 << b), j) == ctrl_bit(c, j),
{
    assert(((c | (1u8 << b)) & (1u8 << j) != 0) == (c & (1u8 << j) != 0)) by (bit_vector)
        requires
            b < 8 && j < 8 && j != b,
    ;
}

/// Setting one control bit raises that bit and leaves the others alone.
pub proof fn lemma_ctrl_bit_set(c: u8, b: u8)
    requires
        b < 8,
    ensures
        ctrl_bit(c | (1u8 << b), b),
        forall|j: u8| j < 8 && j != b ==> ctrl_bit(c | (1u8 << b), j) == ctrl_bit(c, j),
{
    assert((c | (1u8 << b)) & (1u8 << b) != 0) by (bit_vector)
        requires
            b < 8,
    ;
    assert forall|j: u8| j < 8 && j != b implies ctrl_bit(c | (1u8 << b), j) == ctrl_bit(c, j) by {
        lemma_or_bit_other(c, b, j);
    }
}

/// The four little-endian header bytes of a length below 2^32 add back up
/// to that length.
pub proof fn lemma_header_bytes(n: nat)
    requires
        n < 4294967296,
    ensures
        (n % 256) + 256 * ((n / 256) % 256) + 65536 * ((n / 256 / 256) % 256) + 16777216 * (n / 256
            / 256 / 256) == n,
        n / 256 / 256 / 256 < 256,
{
    let x = n as int;
    vstd::arithmetic::div_mod::lemma_fundamental_div_mod(x, 256);
    vstd::arithmetic::div_mod::lemma_fundamental_div_mod(x / 256, 256);
    vstd::arithmetic::div_mod::lemma_fundamental_div_mod(x / 256 / 256, 256);
    assert(x / 256 < 16777216);
    assert(x / 256 / 256 < 65536);
    assert(x / 256 / 256 / 256 < 256);
}

/// Inside a region that repeats with period `d`, every byte equals the byte
/// `d` positions earlier reduced into the first period.
proof fn lemma_periodic_index(s: Seq<u8>, pos: int, d: int, l: int, i: int)
    requires
        1 <= d <= pos,
        0 <= i < l,
        pos + l <= s.len(),
        forall|k: int| 0 <= k < l ==> s[pos - d + k] == #[trigger] s[pos + k],
    ensures
        s[pos + i] == s[pos - d + (i % d)],
    decreases i,
{
    if i < d {
        assert(i % d == i) by (nonlinear_arith)
            requires
                0 <= i < d,
        ;
    } else {
        lemma_periodic_index(s, pos, d, l, i - d);
        assert((i - d) % d == i % d) by (nonlinear_arith)
            requires
                1 <= d <= i,
        ;
        assert(s[pos - d + i] == s[pos + i]);
    }
}

/// A back-reference whose source bytes equal the bytes being produced
/// reconstructs exactly the next `l` bytes of `s`, including the
/// overlapping case `d < l`.
pub proof fn lemma_periodic_copy(s: Seq<u8>, pos: int, d: nat, l: nat)
    requires
        1 <= d <= pos,
        pos + l <= s.len(),
        forall|k: int| 0 <= k < l ==> s[pos - d + k] == #[trigger] s[pos + k],
    ensures
        copy_append(s.take(pos), d, l) == s.take(pos + l),
{
    let lhs = copy_append(s.take(pos), d, l);
    assert forall|j: int| 0 <= j < pos + l implies lhs[j] == s[j] by {
        if j >= pos {
            let i = j - pos;
            assert(0 <= i % (d as int) < d as int) by (nonlinear_arith)
                requires
                    d >= 1,
                    i >= 0,
            ;
            lemma_periodic_index(s, pos, d as int, l as int, i);
            assert(lhs[j] == s.take(pos)[pos - d + (i % (d as int))]);
        }
    }
    assert(lhs =~= s.take(pos + l));
}

/// Appending one further group (at most eight tokens with a matching
/// control byte) to a stream of full groups keeps the group encoding.
pub proof fn lemma_encodes_groups_append(s: Seq<u8>, t1: Seq<Token>, c: u8, t2: Seq<Token>)
    requires
        encodes_groups(s, t1),
        t1.len() % 8 == 0,
        1 <= t2.len() <= 8,
        control_matches(c, t2),
    ensures
        encodes_groups(s + seq![c] + enc_tokens(t2), t1 + t2),
    decreases t1.len(),
{
    let full = s + seq![c] + enc_tokens(t2);
    let all = t1 + t2;
    if t1.len() == 0 {
        assert(s.len() == 0);
        assert(full =~= seq![c] + enc_tokens(t2));
        assert(all =~= t2);
        let g = t2.len() as int;
        assert(all.take(g) =~= t2);
        let body = enc_tokens(t2);
        assert(full[0] == c);
        assert(full.subrange(1, 1 + body.len() as int) =~= body);
        assert(full.skip(1 + body.len() as int) =~= Seq::<u8>::empty());
        assert(all.skip(g) =~= Seq::<Token>::empty());
        let gd = if all.len() >= 8 {
            8int
        } else {
            all.len() as int
        };
        assert(gd == g);
        assert(enc_tokens(all.take(gd)) == body);
        assert(control_matches(full[0], all.take(gd)));
        assert(encodes_groups(full.skip(1 + body.len() as int), all.skip(gd)));
        assert(encodes_groups(full, all));
    } else {
        assert(t1.len() >= 8) by {
            assert(t1.len() % 8 == 0);
        }
        let body1 = enc_tokens(t1.take(8));
        let rest = s.skip(1 + body1.len() as int);
        assert(t1.skip(8).len() % 8 == 0);
        lemma_encodes_groups_append(rest, t1.skip(8), c, t2);
        assert(all.len() >= 8);
        assert(all.take(8) =~= t1.take(8));
        assert(full.len() >= 1 + body1.len());
        assert(full[0] == s[0]);
        assert(full.subrange(1, 1 + body1.len() as int) =~= s.subrange(1, 1 + body1.len() as int));
        assert(full.skip(1 + body1.len() as int) =~= rest + seq![c] + enc_tokens(t2));
        assert(all.skip(8) =~= t1.skip(8) + t2);
        assert(encodes_groups(full, all));
    }
}

/// Core correctness of the stream format: from a position holding the
/// remaining bytes of the current group (`grp`, flagged by the bits of
/// `control` from `bit` upward) followed by the group encoding of `rest`,
/// the decoder reconstructs exactly what the tokens stand for, provided
/// every token references bytes that exist and the declared length is the
/// total the tokens produce.
pub proof fn lemma_decode_group(
    input: Seq<u8>,
    pos: int,
    control: u8,
    bit: int,
    out: Seq<u8>,
    orig: nat,
    mm: nat,
    grp: Seq<Token>,
    rest: Seq<Token>,
)
    requires
        mm >= 1,
        0 <= pos <= input.len(),
        0 <= bit <= 8,
        bit + grp.len() <= 8,
        bit == 8 ==> grp.len() == 0,
        rest.len() > 0 ==> bit + grp.len() == 8,
        pos + enc_tokens(grp).len() <= input.len(),
        input.subrange(pos, pos + enc_tokens(grp).len() as int) == enc_tokens(grp),
        encodes_groups(input.skip(pos + enc_tokens(grp).len() as int), rest),
        forall|j: int|
            0 <= j < grp.len() ==> ctrl_bit(control, (bit + j) as u8) == is_match_token(grp[j]),
        tokens_valid(out.len(), grp + rest, mm),
        out.len() + tokens_out_len(grp + rest, mm) == orig,
    ensures
        decode_from(input, pos, control, bit, out, orig, mm) == decode_tokens(out, grp + rest, mm),
    decreases input.len() - pos,
{
    let total = grp + rest;
    if grp.len() == 0 {
        assert(total =~= rest);
        assert(enc_tokens(grp).len() == 0);
        assert(input.subrange(pos, pos) =~= Seq::<u8>::empty());
        if rest.len() == 0 {
            assert(input.skip(pos).len() == 0);
            assert(pos == input.len());
            assert(tokens_out_len(total, mm) == 0);
            assert(fit_to(out, orig) =~= out);
        } else {
            assert(bit == 8);
            lemma_tokens_out_len_lower(rest, mm);
            assert(out.len() < orig);
            let s = input.skip(pos);
            let g2 = if rest.len() >= 8 {
                8int
            } else {
                rest.len() as int
            };
            let grp2 = rest.take(g2);
            let rest2 = rest.skip(g2);
            let body2 = enc_tokens(grp2);
            assert(s.len() >= 1 + body2.len());
            assert(pos < input.len());
            assert(s[0] == input[pos]);
            assert(input.subrange(pos + 1, pos + 1 + body2.len() as int) =~= s.subrange(
                1,
                1 + body2.len() as int,
            ));
            assert(input.skip(pos + 1 + body2.len() as int) =~= s.skip(1 + body2.len() as int));
            assert(grp2 + rest2 =~= rest);
            lemma_decode_group(input, pos + 1, input[pos], 0, out, orig, mm, grp2, rest2);
            assert(decode_from(input, pos, control, bit, out, orig, mm) == decode_from(
                input,
                pos + 1,
                input[pos],
                0,
                out,
                orig,
                mm,
            ));
            assert(decode_tokens(out, grp2 + rest2, mm) == decode_tokens(out, total, mm));
        }
    } else {
        assert(bit < 8);
        lemma_tokens_out_len_lower(total, mm);
        assert(total[0] == grp[0]);
        assert(total.drop_first() =~= grp.drop_first() + rest);
        assert(tokens_valid(out.len(), total, mm));
        assert(token_valid(out.len(), total[0]));
        assert(out.len() < orig);
        let t = grp[0];
        let w = enc_token(t).len() as int;
        let enc_grp = enc_tokens(grp);
        let enc_tail = enc_tokens(grp.drop_first());
        assert(enc_grp == enc_token(t) + enc_tail);
        assert(enc_grp.len() == w + enc_tail.len());
        // every byte of the token's own encoding is right there in the input
        assert(forall|k: int|
            0 <= k < enc_grp.len() ==> input[pos + k] == #[trigger] enc_grp[k]) by {
            assert(forall|k: int|
                0 <= k < enc_grp.len() ==> input.subrange(
                    pos,
                    pos + enc_grp.len() as int,
                )[k] == #[trigger] enc_grp[k]);
        }
        assert forall|k: int| 0 <= k < w implies input[pos + k] == enc_token(t)[k] by {
            assert(enc_grp[k] == enc_token(t)[k]);
        }
        assert forall|k: int| 0 <= k < enc_tail.len() implies input[pos + w + k] == enc_tail[k] by {
            assert(enc_grp[w + k] == enc_tail[k]);
        }
        assert(input.subrange(pos + w, pos + w + enc_tail.len() as int) =~= enc_tail);
        assert(input.skip(pos + w + enc_tail.len() as int) =~= input.skip(
            pos + enc_grp.len() as int,
        ));
        assert(ctrl_bit(control, bit as u8) == is_match_token(grp[0]));
        let out2 = apply_token(out, t, mm);
        assert(tokens_valid(out2.len(), grp.drop_first() + rest, mm)) by {
            assert(out2.len() == out.len() + token_out_len(t, mm));
        }
        assert(out2.len() + tokens_out_len(grp.drop_first() + rest, mm) == orig);
        // control bits of the rest of the group keep their meaning
        assert(forall|j: int|
            0 <= j < grp.drop_first().len() ==> ctrl_bit(control, (bit + 1 + j) as u8)
                == is_match_token(#[trigger] grp.drop_first()[j])) by {
            assert(forall|j: int|
                0 <= j < grp.drop_first().len() ==> #[trigger] grp.drop_first()[j] == grp[j + 1]);
        }
        match t {
            Token::Literal(b) => {
                assert(w == 1);
                assert(input[pos + 0] == enc_token(t)[0]);
                assert(enc_token(t)[0] == b);
                assert(input[pos] == b);
                assert(!ctrl_bit(control, bit as u8));
                assert(pos < input.len());
                lemma_decode_group(
                    input,
                    pos + 1,
                    control,
                    bit + 1,
                    out.push(b),
                    orig,
                    mm,
                    grp.drop_first(),
                    rest,
                );
                assert(decode_from(input, pos, control, bit, out, orig, mm) == decode_from(
                    input,
                    pos + 1,
                    control,
                    bit + 1,
                    out.push(b),
                    orig,
                    mm,
                ));
            },
            Token::Match { dist, code } => {
                assert(w == 3);
                assert(ctrl_bit(control, bit as u8));
                assert(pos + 2 < input.len());
                assert(input[pos + 0] == enc_token(t)[0]);
                assert(input[pos] == (dist as nat % 256) as u8);
                assert(input[pos + 1] == (dist as nat / 256) as u8);
                assert(input[pos + 2] == code);
                let d = input[pos] as nat + 256 * (input[pos + 1] as nat);
                assert(d == dist as nat) by {
                    vstd::arithmetic::div_mod::lemma_fundamental_div_mod(dist as int, 256);
                    assert(0 <= dist as int % 256 < 256);
                    assert(0 <= dist as int / 256 < 256);
                }
                let l = input[pos + 2] as nat + mm;
                assert(l == token_out_len(t, mm));
                assert(1 <= d && d <= out.len());
                assert(l <= orig - out.len()) by {
                    assert(tokens_out_len(total, mm) == token_out_len(total[0], mm)
                        + tokens_out_len(total.drop_first(), mm));
                }
                assert(copy_append(out, d, l) == out2);
                lemma_decode_group(
                    input,
                    pos + 3,
                    control,
                    bit + 1,
                    out2,
                    orig,
                    mm,
                    grp.drop_first(),
                    rest,
                );
                assert(decode_from(input, pos, control, bit, out, orig, mm) == decode_from(
                    input,
                    pos + 3,
                    control,
                    bit + 1,
                    out2,
                    orig,
                    mm,
                ));
            },
        }
        assert(decode_tokens(out, total, mm) == decode_tokens(out2, total.drop_first(), mm));
    }
}

/// What the decoder makes of a well-formed group encoding: exactly the
/// token sequence's meaning.
pub proof fn lemma_decode_encoded(
    input: Seq<u8>,
    pos: int,
    control: u8,
    out: Seq<u8>,
    orig: nat,
    mm: nat,
    toks: Seq<Token>,
)
    requires
        mm >= 1,
        0 <= pos <= input.len(),
        encodes_groups(input.skip(pos), toks),
        tokens_valid(out.len(), toks, mm),
        out.len() + tokens_out_len(toks, mm) == orig,
    ensures
        decode_from(input, pos, control, 8, out, orig, mm) == decode_tokens(out, toks, mm),
{
    assert(enc_tokens(Seq::<Token>::empty()).len() == 0);
    assert(input.subrange(pos, pos) =~= enc_tokens(Seq::<Token>::empty()));
    assert(Seq::<Token>::empty() + toks =~= toks);
    lemma_decode_group(input, pos, control, 8, out, orig, mm, Seq::<Token>::empty(), toks);
}

} // verus!
