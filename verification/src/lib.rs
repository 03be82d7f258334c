use vstd::prelude::*;

pub mod asset_loader;
pub mod benchmark;
pub mod frame;
pub mod match_finder;
pub mod model;
pub mod tuner;

use crate::match_finder::{find_best_match, PrefixIndex};
use crate::model::{
    apply_token, copy_append, ctrl_bit, decode_from, decode_tokens, enc_token, enc_tokens,
    encodes_groups, fit_to, header_value, is_match_token, control_matches, lemma_ctrl_bit_set,
    lemma_ctrl_bit_zero, lemma_decode_encoded, lemma_decode_tokens_snoc, lemma_enc_tokens_snoc,
    lemma_encodes_groups_append, lemma_header_bytes, lemma_periodic_copy,
    lemma_enc_tokens_le_out_len, lemma_encodes_groups_len, lemma_spec_decompress_len,
    lemma_tokens_in_window_snoc, lemma_tokens_out_len_lower, lemma_tokens_out_len_snoc,
    lemma_tokens_thrifty_snoc, lemma_tokens_valid_snoc, tokens_in_window, tokens_thrifty,
    spec_decompress, token_out_len, token_valid, tokens_out_len, tokens_valid, Token,
};

verus! {

/// Sliding-window codec for byte streams: greedy longest-match search over a
/// bounded window, bit-packed literal/match flags, exact reconstruction.
pub struct LZSS {
    window_size: usize,
    min_match_length: usize,
}

impl LZSS {
    pub closed spec fn spec_window_size(&self) -> nat {
        self.window_size as nat
    }

    pub closed spec fn spec_min_match_length(&self) -> nat {
        self.min_match_length as nat
    }

    /// Parameters under which the codec's contracts hold: a positive window
    /// and a positive minimum match length small enough that a longest
    /// representable match still fits in a machine word.  Windows wider than
    /// the two-byte distance field can express are accepted; distances are
    /// clamped to 65535 while compressing.
    pub open spec fn valid(&self) -> bool {
        &&& 1 <= self.spec_window_size()
        &&& 1 <= self.spec_min_match_length()
        &&& self.spec_min_match_length() + 255 <= usize::MAX
    }

    /// Create a codec with the given window size and minimum match length.
    pub fn new(window_size: usize, min_match_length: usize) -> (r: Self)
        ensures
            r.spec_window_size() == window_size,
            r.spec_min_match_length() == min_match_length,
    {
        LZSS { window_size, min_match_length }
    }

    /// Compress `input` into the framed stream format.
    ///
    /// Empty input stays empty (no header is written).  Otherwise the output
    /// carries the input's length in its four-byte little-endian header, and
    /// — the round-trip contract — decoding the output under the same
    /// minimum match length gives back exactly `input`; the stream is a
    /// well-formed group encoding of tokens that respect the stream
    /// invariant and the window, within the worst-case size whenever the
    /// window fits the distance range.  Compression is a pure function of
    /// the input and the configuration — the match index and its walk
    /// depend on nothing else — but the contract deliberately stops short
    /// of pinning the exact token choice: stating the greedy heuristic in
    /// full would reproduce the algorithm as its own specification, and
    /// every property the rest of the library relies on follows from the
    /// clauses here.
    #[verifier::rlimit(60)]
    pub fn compress(&self, input: &Vec<u8>) -> (r: Vec<u8>)
        requires
            self.valid(),
            input@.len() < 4294967296,
        ensures
            input@.len() == 0 ==> r@ == Seq::<u8>::empty(),
            input@.len() != 0 ==> r@.len() >= 6 && header_value(r@) == input@.len(),
            spec_decompress(r@, self.spec_min_match_length()) == input@,
            self.spec_window_size() <= 65535 || self.spec_min_match_length() >= 3 ==> r@.len() <= 4
                + (input@.len() + 7) / 8 + input@.len(),
            input@.len() != 0 ==> exists|toks: Seq<Token>|
                {
                    &&& #[trigger] encodes_groups(r@.skip(4), toks)
                    &&& tokens_valid(0, toks, self.spec_min_match_length())
                    &&& tokens_in_window(toks, self.spec_window_size())
                    &&& tokens_out_len(toks, self.spec_min_match_length()) == input@.len()
                    &&& decode_tokens(Seq::empty(), toks, self.spec_min_match_length()) == input@
                },
    {
        let ghost mm = self.spec_min_match_length();
        let input_len = input.len();
        if input_len == 0 {
            return Vec::new();
        }
        let window_size = self.window_size;
        let min_match = self.min_match_length;
        let max_match_length = 255 + min_match;

        let mut out: Vec<u8> = Vec::new();
        let n = input_len;
        out.push((n % 256) as u8);
        out.push(((n / 256) % 256) as u8);
        out.push(((n / 256 / 256) % 256) as u8);
        out.push((n / 256 / 256 / 256) as u8);
        proof {
            lemma_header_bytes(n as nat);
            assert(header_value(out@) == n);
        }
        let ghost hdr = out@;

        let mut control: u8 = 0;
        let mut bit_pos: usize = 0;
        let mut group: Vec<u8> = Vec::new();
        let ghost mut closed: Seq<Token> = Seq::empty();
        let ghost mut open: Seq<Token> = Seq::empty();
        let ghost mut dict_bound: nat = 0;
        let mut index = PrefixIndex::new();
        proof {
            assert forall|j: u8| 0 <= j < 8 implies !ctrl_bit(control, j) by {
                lemma_ctrl_bit_zero(j);
            }
            assert(out@.skip(4) =~= Seq::<u8>::empty());
            assert(input@.take(0) =~= Seq::<u8>::empty());
            assert(out@.subrange(0, 4) =~= hdr);
        }

        let mut pos: usize = 0;
        while pos < input_len
            invariant
                input_len == input@.len(),
                1 <= input_len < 4294967296,
                pos <= input_len,
                min_match == mm,
                1 <= min_match,
                min_match + 255 <= usize::MAX,
                1 <= window_size,
                max_match_length == 255 + min_match,
                index.wf(dict_bound),
                dict_bound <= pos,
                bit_pos < 8,
                open.len() == bit_pos,
                closed.len() % 8 == 0,
                tokens_valid(0, closed + open, mm),
                tokens_in_window(closed + open, window_size as nat),
                window_size <= 65535 || min_match >= 3 ==> tokens_thrifty(closed + open, mm),
                decode_tokens(Seq::empty(), closed + open, mm) == input@.take(pos as int),
                tokens_out_len(closed + open, mm) == pos,
                out@.len() >= 4,
                out@.subrange(0, 4) == hdr,
                header_value(hdr) == input_len,
                hdr.len() == 4,
                encodes_groups(out@.skip(4), closed),
                group@ == enc_tokens(open),
                forall|j: int|
                    0 <= j < bit_pos ==> ctrl_bit(control, j as u8) == is_match_token(open[j]),
                forall|j: u8| bit_pos <= j < 8 ==> !ctrl_bit(control, j),
            decreases input_len - pos,
        {
            let remaining = input_len - pos;
            let max_look_ahead = if remaining < max_match_length {
                remaining
            } else {
                max_match_length
            };
            let window_begin = if pos > window_size {
                pos - window_size
            } else {
                0
            };
            let mut best_len: usize = 0;
            let mut best_dist: usize = 0;
            if max_look_ahead >= min_match && remaining >= 3 {
                // a full three-byte key exists: search, then feed the index
                let c0 = input[pos];
                let c1 = input[pos + 1];
                let c2 = input[pos + 2];
                proof {
                    index.lemma_wf_sized(dict_bound);
                    index.lemma_lookup_bounded(c0, c1, c2, dict_bound);
                }
                let cands = index.lookup(c0, c1, c2);
                let found = find_best_match(
                    input,
                    pos,
                    window_begin,
                    max_look_ahead,
                    min_match,
                    cands,
                );
                best_dist = found.0;
                best_len = found.1;
                proof {
                    index.lemma_wf_widen(dict_bound, pos as nat);
                }
                index.insert(c0, c1, c2, pos);
                proof {
                    dict_bound = pos as nat + 1;
                }
            }
            if best_len >= min_match && best_dist > 65535 {
                // the distance cannot be stored in two bytes: clamp it and
                // measure what still matches at the clamped distance
                let back_pos = pos - 65535;
                let mut adjusted_len: usize = 0;
                while adjusted_len < max_look_ahead && input[back_pos + adjusted_len] == input[pos
                    + adjusted_len]
                    invariant
                        adjusted_len <= max_look_ahead,
                        back_pos + 65535 == pos,
                        input@.len() <= usize::MAX,
                        pos + max_look_ahead <= input@.len(),
                        forall|k: int|
                            0 <= k < adjusted_len ==> input@[back_pos + k] == #[trigger] input@[pos
                                + k],
                    decreases max_look_ahead - adjusted_len,
                {
                    adjusted_len = adjusted_len + 1;
                }
                best_len = adjusted_len;
                best_dist = 65535;
            }
            let ghost toks_before = closed + open;
            let ghost open_before = open;
            let ghost control_before = control;
            if best_len >= min_match {
                // encode a match token
                let code = best_len - min_match;
                proof {
                    lemma_ctrl_bit_set(control, bit_pos as u8);
                }
                control = control | (1u8 << (bit_pos as u8));
                group.push((best_dist % 256) as u8);
                group.push((best_dist / 256) as u8);
                group.push(code as u8);
                let ghost t = Token::Match { dist: best_dist as u16, code: code as u8 };
                proof {
                    assert(best_dist <= 65535);
                    assert(code <= 255);
                    assert(t->Match_dist as nat == best_dist);
                    assert(enc_token(t) =~= seq![
                        (best_dist % 256) as u8,
                        (best_dist / 256) as u8,
                        code as u8,
                    ]);
                    lemma_enc_tokens_snoc(open, t);
                    assert(group@ =~= enc_tokens(open) + enc_token(t));
                    assert(token_out_len(t, mm) == best_len);
                    assert(token_valid(pos as nat, t));
                    lemma_tokens_valid_snoc(0, toks_before, t, mm);
                    lemma_tokens_out_len_snoc(toks_before, t, mm);
                    assert(best_dist <= window_size);
                    lemma_tokens_in_window_snoc(toks_before, t, window_size as nat);
                    if window_size <= 65535 || min_match >= 3 {
                        assert(code + min_match >= 3);
                        lemma_tokens_thrifty_snoc(toks_before, t, mm);
                    }
                    lemma_decode_tokens_snoc(Seq::empty(), toks_before, t, mm);
                    lemma_periodic_copy(input@, pos as int, best_dist as nat, best_len as nat);
                    assert(apply_token(input@.take(pos as int), t, mm) == input@.take(
                        pos as int + best_len,
                    ));
                    open = open.push(t);
                    assert(closed + open =~= toks_before.push(t));
                }
                pos = pos + best_len;
            } else {
                // encode a literal token
                let b = input[pos];
                group.push(b);
                let ghost t = Token::Literal(input@[pos as int]);
                proof {
                    lemma_enc_tokens_snoc(open, t);
                    assert(enc_token(t) =~= seq![b]);
                    assert(group@ =~= enc_tokens(open) + enc_token(t));
                    assert(token_out_len(t, mm) == 1);
                    lemma_tokens_valid_snoc(0, toks_before, t, mm);
                    lemma_tokens_out_len_snoc(toks_before, t, mm);
                    lemma_tokens_in_window_snoc(toks_before, t, window_size as nat);
                    if window_size <= 65535 || min_match >= 3 {
                        lemma_tokens_thrifty_snoc(toks_before, t, mm);
                    }
                    lemma_decode_tokens_snoc(Seq::empty(), toks_before, t, mm);
                    assert(apply_token(input@.take(pos as int), t, mm) =~= input@.take(
                        pos as int + 1,
                    ));
                    open = open.push(t);
                    assert(closed + open =~= toks_before.push(t));
                }
                pos = pos + 1;
            }
            bit_pos = bit_pos + 1;
            proof {
                assert forall|j: int|
                    0 <= j < bit_pos implies ctrl_bit(control, j as u8) == is_match_token(
                    open[j],
                ) by {
                    if j < bit_pos - 1 {
                        assert(ctrl_bit(control, j as u8) == ctrl_bit(control_before, j as u8));
                        assert(open[j] == open_before[j]);
                    }
                }
                assert forall|j: u8| bit_pos <= j < 8 implies !ctrl_bit(control, j) by {
                    assert(ctrl_bit(control, j) == ctrl_bit(control_before, j));
                }
            }
            if bit_pos == 8 {
                // the group is full: write its control byte and its tokens
                let ghost stream_before = out@.skip(4);
                out.push(control);
                out.append(&mut group);
                proof {
                    assert(control_matches(control, open));
                    lemma_encodes_groups_append(stream_before, closed, control, open);
                    assert(out@.skip(4) =~= stream_before + seq![control] + enc_tokens(open));
                    assert(out@.subrange(0, 4) =~= hdr);
                    closed = closed + open;
                    open = Seq::empty();
                    assert(closed + open =~= closed);
                    assert(group@ =~= enc_tokens(open));
                }
                control = 0;
                bit_pos = 0;
                proof {
                    assert forall|j: u8| 0 <= j < 8 implies !ctrl_bit(control, j) by {
                        lemma_ctrl_bit_zero(j);
                    }
                }
            }
            proof {
                assert(dict_bound <= pos);
            }
        }
        // write out the final, possibly partial, group
        if bit_pos > 0 {
            let ghost stream_before = out@.skip(4);
            out.push(control);
            out.append(&mut group);
            proof {
                assert(control_matches(control, open));
                lemma_encodes_groups_append(stream_before, closed, control, open);
                assert(out@.skip(4) =~= stream_before + seq![control] + enc_tokens(open));
                assert(out@.subrange(0, 4) =~= hdr);
                closed = closed + open;
                open = Seq::empty();
            }
        }
        proof {
            let all = closed;
            assert(tokens_out_len(all, mm) == input_len);
            lemma_tokens_out_len_lower(all, mm);
            assert(all.len() >= 1);
            assert(decode_tokens(Seq::empty(), all, mm) == input@.take(input_len as int));
            assert(input@.take(input_len as int) =~= input@);
            assert(encodes_groups(out@.skip(4), all));
            // the stream holds a control byte and at least one token byte
            assert(out@.skip(4).len() >= 2) by {
                let g = if all.len() >= 8 {
                    8int
                } else {
                    all.len() as int
                };
                assert(enc_tokens(all.take(g)).len() >= 1) by {
                    assert(all.take(g).len() >= 1);
                    assert(enc_token(all.take(g)[0]).len() >= 1);
                }
            }
            assert(out@.len() >= 6);
            assert(header_value(out@) == input_len) by {
                assert(out@.subrange(0, 4) == hdr);
                assert(out@[0] == hdr[0] && out@[1] == hdr[1] && out@[2] == hdr[2] && out@[3]
                    == hdr[3]);
            }
            lemma_decode_encoded(out@, 4, 0, Seq::empty(), input_len as nat, mm, all);
            assert(spec_decompress(out@, mm) == input@);
            // size bound: one control byte per eight tokens, and, for a
            // minimum match of three or more, token bytes that never
            // exceed the bytes they stand for
            lemma_encodes_groups_len(out@.skip(4), all);
            if window_size <= 65535 || min_match >= 3 {
                lemma_enc_tokens_le_out_len(all, mm);
                assert(all.len() <= input_len);
                vstd::arithmetic::div_mod::lemma_div_is_ordered(
                    all.len() as int + 7,
                    input_len as int + 7,
                    8,
                );
                assert(out@.len() <= 4 + (input_len + 7) / 8 + input_len);
            }
            assert(exists|toks: Seq<Token>|
                {
                    &&& #[trigger] encodes_groups(out@.skip(4), toks)
                    &&& tokens_valid(0, toks, mm)
                    &&& tokens_in_window(toks, self.spec_window_size())
                    &&& tokens_out_len(toks, mm) == input@.len()
                    &&& decode_tokens(Seq::empty(), toks, mm) == input@
                }) by {
                assert(encodes_groups(out@.skip(4), all));
                assert(tokens_in_window(all, self.spec_window_size()));
            }
        }
        out
    }

    /// Bring a reconstruction to exactly the declared length: excess is cut
    /// off, a shortfall is padded with zero bytes.
    fn fit_output(mut out: Vec<u8>, original_size: usize) -> (r: Vec<u8>)
        ensures
            r@ == fit_to(out@, original_size as nat),
    {
        let ghost out0 = out@;
        if out.len() > original_size {
            out.truncate(original_size);
            proof {
                assert(out@ =~= fit_to(out0, original_size as nat));
            }
        } else {
            while out.len() < original_size
                invariant
                    out@.len() <= original_size,
                    fit_to(out@, original_size as nat) == fit_to(out0, original_size as nat),
                decreases original_size - out.len(),
            {
                out.push(0);
                proof {
                    assert(fit_to(out@, original_size as nat) =~= fit_to(
                        out@.drop_last(),
                        original_size as nat,
                    ));
                }
            }
            proof {
                assert(out@ =~= fit_to(out@, original_size as nat));
            }
        }
        out
    }

    /// Reconstruct the bytes a compressed stream stands for.
    ///
    /// The result is exactly what the stream model prescribes for `input`,
    /// for well-formed and for damaged streams alike: an input too short for
    /// a header and one control byte yields an empty result; otherwise
    /// exactly the declared number of bytes comes back, with a stream that
    /// is cut off inside a match token decoded up to that point and padded
    /// with zeros, and out-of-range back-references skipped.
    #[verifier::rlimit(60)]
    pub fn decompress(&self, input: &Vec<u8>) -> (r: Vec<u8>)
        requires
            self.valid(),
        ensures
            r@ == spec_decompress(input@, self.spec_min_match_length()),
            input@.len() < 5 ==> r@.len() == 0,
            input@.len() >= 5 ==> r@.len() == header_value(input@),
    {
        let ghost mm = self.spec_min_match_length();
        let ghost res = spec_decompress(input@, mm);
        proof {
            lemma_spec_decompress_len(input@, mm);
        }
        if input.len() < 5 {
            // too short for the header and a control byte
            return Vec::new();
        }
        let original_size: usize = input[0] as usize + 256 * (input[1] as usize) + 65536 * (input[2]
            as usize) + 16777216 * (input[3] as usize);
        assert(original_size == header_value(input@));
        let ghost orig = original_size as nat;
        let min_match = self.min_match_length;

        let mut out: Vec<u8> = Vec::new();
        let mut pos: usize = 4;
        while pos < input.len() && out.len() < original_size
            invariant
                4 <= pos <= input@.len(),
                input@.len() >= 5,
                orig == original_size,
                orig == header_value(input@),
                out@.len() <= orig,
                min_match == mm,
                mm == self.spec_min_match_length(),
                res == spec_decompress(input@, mm),
                1 <= mm,
                mm + 255 <= usize::MAX,
                decode_from(input@, pos as int, 0, 8, out@, orig, mm) == res,
            decreases input@.len() - pos,
        {
            let control = input[pos];
            pos = pos + 1;
            proof {
                assert(decode_from(input@, pos - 1, 0, 8, out@, orig, mm) == decode_from(
                    input@,
                    pos as int,
                    control,
                    0,
                    out@,
                    orig,
                    mm,
                ));
            }
            let ghost pos_entry = pos as int;
            let mut bit: usize = 0;
            while bit < 8
                invariant_except_break
                    decode_from(input@, pos as int, control, bit as int, out@, orig, mm) == res,
                invariant
                    bit <= 8,
                    4 <= pos <= input@.len(),
                    out@.len() <= orig,
                    orig == original_size,
                    orig == header_value(input@),
                    input@.len() >= 5,
                    min_match == mm,
                    mm == self.spec_min_match_length(),
                    res == spec_decompress(input@, mm),
                    1 <= mm,
                    mm + 255 <= usize::MAX,
                    pos_entry <= pos as int,
                ensures
                    decode_from(input@, pos as int, control, 8, out@, orig, mm) == res,
                decreases 8 - bit,
            {
                if out.len() >= original_size || pos >= input.len() {
                    proof {
                        assert(decode_from(input@, pos as int, control, bit as int, out@, orig, mm)
                            == fit_to(out@, orig));
                        assert(decode_from(input@, pos as int, control, 8, out@, orig, mm)
                            == fit_to(out@, orig));
                    }
                    break;
                }
                if control & (1u8 << (bit as u8)) != 0 {
                    // match token: two distance bytes and a length code
                    if input.len() - pos < 3 {
                        // truncated token: decoding stops here
                        proof {
                            assert(decode_from(
                                input@,
                                pos as int,
                                control,
                                bit as int,
                                out@,
                                orig,
                                mm,
                            ) == fit_to(out@, orig));
                        }
                        return Self::fit_output(out, original_size);
                    }
                    let distance: usize = input[pos] as usize + 256 * (input[pos + 1] as usize);
                    let length: usize = input[pos + 2] as usize + min_match;
                    let ghost pos0 = pos as int;
                    pos = pos + 3;
                    if distance == 0 || distance > out.len() {
                        // corrupt back-reference: skipped, not fatal
                        proof {
                            assert(decode_from(input@, pos0, control, bit as int, out@, orig, mm)
                                == decode_from(
                                input@,
                                pos as int,
                                control,
                                bit as int + 1,
                                out@,
                                orig,
                                mm,
                            ));
                        }
                    } else {
                        let start = out.len() - distance;
                        let ghost out0 = out@;
                        let ghost len0 = out@.len();
                        let ghost cnt: nat = if length as nat <= orig - len0 {
                            length as nat
                        } else {
                            (orig - len0) as nat
                        };
                        let mut i: usize = 0;
                        while i < length && out.len() < original_size
                            invariant
                                i as nat <= cnt,
                                cnt == (if length as nat <= orig - len0 {
                                    length as nat
                                } else {
                                    (orig - len0) as nat
                                }),
                                1 <= distance <= len0,
                                start == len0 - distance,
                                out@ == copy_append(out0, distance as nat, i as nat),
                                out@.len() == len0 + i,
                                len0 + cnt <= orig,
                                orig == original_size,
                                out0.len() == len0,
                            decreases length - i,
                        {
                            let ghost before = out@;
                            if start + i < out.len() {
                                let v = out[start + i];
                                out.push(v);
                            } else {
                                // self-referential copy: wrap into the part
                                // that existed before this token
                                let offset = i % distance;
                                let v = out[start + offset];
                                out.push(v);
                            }
                            proof {
                                assert(0 <= (i as int) % (distance as int) < distance as int);
                                assert(before[start as int + i as int] == out0[len0 - distance + (
                                (i as int) % (distance as int))]) by {
                                    if i < distance {
                                        assert((i as int) % (distance as int) == i as int)
                                            by (nonlinear_arith)
                                            requires
                                                0 <= i < distance,
                                        ;
                                    } else {
                                        assert(before[start as int + i as int] == before[len0 + (
                                        i as int - distance as int)]);
                                        assert(((i as int - distance as int)) % (distance as int)
                                            == (i as int) % (distance as int))
                                            by (nonlinear_arith)
                                            requires
                                                1 <= distance as int <= i as int,
                                        ;
                                    }
                                }
                                assert(out@ =~= copy_append(out0, distance as nat, i as nat + 1));
                            }
                            i = i + 1;
                        }
                        proof {
                            assert(i as nat == cnt);
                            assert(decode_from(input@, pos0, control, bit as int, out0, orig, mm)
                                == decode_from(
                                input@,
                                pos as int,
                                control,
                                bit as int + 1,
                                copy_append(out0, distance as nat, cnt),
                                orig,
                                mm,
                            ));
                        }
                    }
                } else {
                    // literal token
                    let ghost out_before = out@;
                    let v = input[pos];
                    out.push(v);
                    let ghost pos0 = pos as int;
                    pos = pos + 1;
                    proof {
                        assert(out@ == out_before.push(input@[pos0]));
                        assert(decode_from(input@, pos0, control, bit as int, out_before, orig, mm)
                            == decode_from(
                            input@,
                            pos as int,
                            control,
                            bit as int + 1,
                            out@,
                            orig,
                            mm,
                        ));
                    }
                }
                bit = bit + 1;
            }
            proof {
                assert(decode_from(input@, pos as int, control, 8, out@, orig, mm) == decode_from(
                    input@,
                    pos as int,
                    0,
                    8,
                    out@,
                    orig,
                    mm,
                ));
            }
        }
        proof {
            assert(decode_from(input@, pos as int, 0, 8, out@, orig, mm) == fit_to(out@, orig));
        }
        Self::fit_output(out, original_size)
    }
}

} // verus!
