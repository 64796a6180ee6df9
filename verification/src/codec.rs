//! Decoder and encoder for the session-store container: a fixed magic
//! signature followed by one self-contained compressed block.
//!
//! The block is a byte-oriented LZ-family stream. Each token byte packs a
//! literal-length nibble (high) and a match-length nibble (low). A nibble of
//! 15 is continued by extension bytes: every `255` byte adds 255 and reading
//! stops at the first byte below 255, which is added too. The literal bytes
//! follow the token and its literal-length extension; then a 2-byte
//! little-endian offset and the match-length extension. A match copies
//! `nibble + extension + 4` bytes from `offset` bytes before the end of the
//! output, byte by byte (overlaps allowed). The stream may end directly after
//! the literals of a token. An offset of zero, an offset past the start of
//! the output, or a truncated token is `Corrupt`; output beyond a fixed
//! multiple of the input size is `SizeLimitExceeded`, as is an input over
//! `MAX_INPUT` bytes, so malformed input can never force unbounded memory.

use vstd::prelude::*;
use vstd::string::StringSliceAdditionalSpecFns;
use vstd::utf8::is_ascii_chars;

use crate::bytes_util::push_bytes;

verus! {

/// Largest accepted container, in bytes.
pub const MAX_INPUT: usize = 16777216;

/// Largest plaintext the encoder accepts; its container stays below
/// `MAX_INPUT`.
pub const MAX_PLAINTEXT: usize = 15000000;

/// How a container can fail to decode.
#[derive(Clone, Copy, Debug, PartialEq, Eq, Structural)]
pub enum DecodeError {
    /// The input does not start with the container signature.
    BadMagic,
    /// A truncated token, an offset of zero, or an offset past the start of
    /// the output.
    Corrupt,
    /// The decoded output would exceed the sane multiple of the input size.
    SizeLimitExceeded,
}

/// The container signature.
pub open spec fn magic_bytes() -> Seq<u8> {
    "mozLz40\u{0}".spec_bytes()
}

/// Most output bytes a decode of `n` input bytes may produce.
pub open spec fn out_limit(n: int) -> int {
    64 * n + 4096
}

/// Number of consecutive `255` bytes at `pos`.
pub open spec fn ext_count(s: Seq<u8>, pos: int) -> nat
    decreases s.len() - pos,
{
    if pos < 0 || pos >= s.len() {
        0
    } else if s[pos] == 255 {
        1 + ext_count(s, pos + 1)
    } else {
        0
    }
}

/// Appends `n` bytes to `out`, each copied from `offset` bytes before the
/// current end of `out`.
pub open spec fn copy_match(out: Seq<u8>, offset: int, n: nat) -> Seq<u8>
    decreases n,
{
    if n == 0 {
        out
    } else {
        copy_match(out.push(out[out.len() - offset]), offset, (n - 1) as nat)
    }
}

/// One pass over the compressed block starting at `pos` with the output
/// built so far in `out`.
pub open spec fn decode_block(s: Seq<u8>, pos: int, out: Seq<u8>, limit: int) -> Result<
    Seq<u8>,
    DecodeError,
>
    decreases s.len() - pos,
{
    if pos < 0 || pos >= s.len() {
        Ok(out)
    } else {
        let token = s[pos] as int;
        let lit_nib = token / 16;
        let mat_nib = token % 16;
        let e1 = ext_count(s, pos + 1);
        let lit_ok = lit_nib != 15 || pos + 1 + e1 < s.len();
        let lit_len: int = if lit_nib != 15 {
            lit_nib
        } else {
            15 + 255 * e1 + s[pos + 1 + e1]
        };
        let p1: int = if lit_nib != 15 {
            pos + 1
        } else {
            pos + 1 + e1 + 1
        };
        if !lit_ok {
            Err(DecodeError::Corrupt)
        } else if lit_len > s.len() - p1 {
            Err(DecodeError::Corrupt)
        } else if out.len() + lit_len > limit {
            Err(DecodeError::SizeLimitExceeded)
        } else {
            let out2 = out + s.subrange(p1, p1 + lit_len);
            let p2 = p1 + lit_len;
            if p2 == s.len() {
                Ok(out2)
            } else if s.len() - p2 < 2 {
                Err(DecodeError::Corrupt)
            } else {
                let offset = s[p2] as int + 256 * (s[p2 + 1] as int);
                let p3 = p2 + 2;
                if offset == 0 || offset > out2.len() {
                    Err(DecodeError::Corrupt)
                } else {
                    let e2 = ext_count(s, p3);
                    let mat_ok = mat_nib != 15 || p3 + e2 < s.len();
                    let mat_len: int = if mat_nib != 15 {
                        mat_nib + 4
                    } else {
                        19 + 255 * e2 + s[p3 + e2]
                    };
                    let p4: int = if mat_nib != 15 {
                        p3
                    } else {
                        p3 + e2 + 1
                    };
                    if !mat_ok {
                        Err(DecodeError::Corrupt)
                    } else if out2.len() + mat_len > limit {
                        Err(DecodeError::SizeLimitExceeded)
                    } else {
                        decode_block(s, p4, copy_match(out2, offset, mat_len as nat), limit)
                    }
                }
            }
        }
    }
}

/// What `decode` returns on `raw`.
pub open spec fn spec_decode(raw: Seq<u8>) -> Result<Seq<u8>, DecodeError> {
    let m = magic_bytes();
    if raw.len() < m.len() || raw.subrange(0, m.len() as int) != m {
        Err(DecodeError::BadMagic)
    } else if raw.len() > MAX_INPUT {
        Err(DecodeError::SizeLimitExceeded)
    } else {
        decode_block(raw, m.len() as int, Seq::<u8>::empty(), out_limit(raw.len() as int))
    }
}

proof fn lemma_copy_match_len(out: Seq<u8>, offset: int, n: nat)
    ensures
        copy_match(out, offset, n).len() == out.len() + n,
    decreases n,
{
    if n != 0 {
        lemma_copy_match_len(out.push(out[out.len() - offset]), offset, (n - 1) as nat);
    }
}

/// Strips the container signature and decompresses the block.
///
/// Returns exactly what `spec_decode` says: `BadMagic` when the signature is
/// absent, `SizeLimitExceeded` when the input or the output is oversized,
/// `Corrupt` on a truncated or inconsistent token, and otherwise the decoded
/// bytes.
pub fn decode(raw: &Vec<u8>) -> (r: Result<Vec<u8>, DecodeError>)
    ensures
        match r {
            Ok(v) => spec_decode(raw@) == Ok::<Seq<u8>, DecodeError>(v@),
            Err(e) => spec_decode(raw@) == Err::<Seq<u8>, DecodeError>(e),
        },
{
    let magic = "mozLz40\u{0}".as_bytes();
    if raw.len() < magic.len() {
        return Err(DecodeError::BadMagic);
    }
    let mut j: usize = 0;
    while j < magic.len()
        invariant
            0 <= j <= magic@.len(),
            magic@ == magic_bytes(),
            raw@.len() >= magic@.len(),
            forall|k: int| 0 <= k < j ==> raw@[k] == magic@[k],
        decreases magic@.len() - j,
    {
        if raw[j] != magic[j] {
            proof {
                assert(raw@.subrange(0, magic_bytes().len() as int)[j as int] != magic_bytes()[j as int]);
            }
            return Err(DecodeError::BadMagic);
        }
        j = j + 1;
    }
    proof {
        assert(raw@.subrange(0, magic_bytes().len() as int) =~= magic_bytes());
    }
    if raw.len() > MAX_INPUT {
        return Err(DecodeError::SizeLimitExceeded);
    }

    let limit: u64 = 64 * (raw.len() as u64) + 4096;
    let ghost s = raw@;
    let ghost glimit = out_limit(raw@.len() as int);
    let mut pos: usize = magic.len();
    let mut out: Vec<u8> = Vec::new();
    proof {
        assert(limit == glimit);
        assert(spec_decode(raw@) == decode_block(
            s,
            magic_bytes().len() as int,
            Seq::<u8>::empty(),
            glimit,
        ));
    }

    while pos < raw.len()
        invariant
            s == raw@,
            magic@.len() <= pos <= s.len(),
            s.len() <= MAX_INPUT,
            limit == glimit,
            glimit == out_limit(s.len() as int),
            out@.len() <= glimit,
            spec_decode(raw@) == decode_block(
                s,
                magic_bytes().len() as int,
                Seq::<u8>::empty(),
                glimit,
            ),
            decode_block(s, pos as int, out@, glimit) == decode_block(
                s,
                magic_bytes().len() as int,
                Seq::<u8>::empty(),
                glimit,
            ),
        decreases s.len() - pos,
    {
        let ghost out0 = out@;
        let ghost pos0 = pos as int;
        let ghost token_g = s[pos0] as int;
        let ghost lit_nib_g = token_g / 16;
        let ghost mat_nib_g = token_g % 16;
        let ghost e1 = ext_count(s, pos0 + 1);
        let ghost lit_ok_g = lit_nib_g != 15 || pos0 + 1 + e1 < s.len();
        let ghost lit_len_g: int = if lit_nib_g != 15 {
            lit_nib_g
        } else {
            15 + 255 * e1 + s[pos0 + 1 + e1]
        };
        let ghost p1_g: int = if lit_nib_g != 15 {
            pos0 + 1
        } else {
            pos0 + 1 + e1 + 1
        };

        let token = raw[pos];
        let lit_nib = token / 16;
        let mat_nib = token % 16;
        pos = pos + 1;
        proof {
            assert(lit_nib as int == lit_nib_g);
            assert(mat_nib as int == mat_nib_g);
        }

        // Literal length, with extension bytes if the nibble is full.
        let lit_len: u64;
        if lit_nib == 15 {
            match read_extension(raw, pos) {
                Ok((v, p)) => {
                    lit_len = 15 + v;
                    pos = p;
                },
                Err(e) => {
                    proof {
                        assert(!lit_ok_g);
                        assert(decode_block(s, pos0, out0, glimit) == Err::<Seq<u8>, DecodeError>(
                            DecodeError::Corrupt,
                        ));
                    }
                    return Err(e);
                },
            }
        } else {
            lit_len = lit_nib as u64;
        }
        proof {
            assert(lit_ok_g);
            assert(lit_len == lit_len_g);
            assert(pos as int == p1_g);
        }

        // Literal run.
        if lit_len > (raw.len() - pos) as u64 {
            proof {
                assert(decode_block(s, pos0, out0, glimit) == Err::<Seq<u8>, DecodeError>(
                    DecodeError::Corrupt,
                ));
            }
            return Err(DecodeError::Corrupt);
        }
        if out.len() as u64 + lit_len > limit {
            proof {
                assert(decode_block(s, pos0, out0, glimit) == Err::<Seq<u8>, DecodeError>(
                    DecodeError::SizeLimitExceeded,
                ));
            }
            return Err(DecodeError::SizeLimitExceeded);
        }
        let lit_n: usize = lit_len as usize;
        proof {
            assert(lit_n == lit_len_g);
        }
        let ghost out2_g = out0 + s.subrange(p1_g, p1_g + lit_len_g);
        let ghost out_before_lit = out@;
        let mut k: usize = 0;
        while k < lit_n
            invariant
                s == raw@,
                s.len() <= MAX_INPUT,
                0 <= k <= lit_n,
                pos + lit_n <= s.len(),
                out@ == out_before_lit + s.subrange(pos as int, pos + k),
            decreases lit_n - k,
        {
            out.push(raw[pos + k]);
            k = k + 1;
            proof {
                assert(out@ =~= out_before_lit + s.subrange(pos as int, pos + k));
            }
        }
        pos = pos + lit_n;
        proof {
            assert(out@ == out2_g);
        }

        if pos == raw.len() {
            proof {
                assert(decode_block(s, pos0, out0, glimit) == Ok::<Seq<u8>, DecodeError>(out2_g));
            }
            return Ok(out);
        }

        // Match offset.
        if raw.len() - pos < 2 {
            proof {
                assert(decode_block(s, pos0, out0, glimit) == Err::<Seq<u8>, DecodeError>(
                    DecodeError::Corrupt,
                ));
            }
            return Err(DecodeError::Corrupt);
        }
        let offset: usize = raw[pos] as usize + 256 * (raw[pos + 1] as usize);
        let ghost p2_g = p1_g + lit_len_g;
        let ghost p3_g = p2_g + 2;
        proof {
            assert(offset as int == s[p2_g] as int + 256 * (s[p2_g + 1] as int));
        }
        pos = pos + 2;
        if offset == 0 || offset > out.len() {
            proof {
                assert(decode_block(s, pos0, out0, glimit) == Err::<Seq<u8>, DecodeError>(
                    DecodeError::Corrupt,
                ));
            }
            return Err(DecodeError::Corrupt);
        }

        // Match length, with extension bytes if the nibble is full.
        let ghost e2 = ext_count(s, p3_g);
        let ghost mat_ok_g = mat_nib_g != 15 || p3_g + e2 < s.len();
        let ghost mat_len_g: int = if mat_nib_g != 15 {
            mat_nib_g + 4
        } else {
            19 + 255 * e2 + s[p3_g + e2]
        };
        let ghost p4_g: int = if mat_nib_g != 15 {
            p3_g
        } else {
            p3_g + e2 + 1
        };
        let mat_len: u64;
        if mat_nib == 15 {
            match read_extension(raw, pos) {
                Ok((v, p)) => {
                    mat_len = 19 + v;
                    pos = p;
                },
                Err(e) => {
                    proof {
                        assert(!mat_ok_g);
                        assert(decode_block(s, pos0, out0, glimit) == Err::<Seq<u8>, DecodeError>(
                            DecodeError::Corrupt,
                        ));
                    }
                    return Err(e);
                },
            }
        } else {
            mat_len = mat_nib as u64 + 4;
        }
        proof {
            assert(mat_ok_g);
            assert(mat_len == mat_len_g);
            assert(pos as int == p4_g);
        }
        if out.len() as u64 + mat_len > limit {
            proof {
                assert(decode_block(s, pos0, out0, glimit) == Err::<Seq<u8>, DecodeError>(
                    DecodeError::SizeLimitExceeded,
                ));
            }
            return Err(DecodeError::SizeLimitExceeded);
        }

        // Match copy, byte by byte so overlapping references repeat.
        let mat_n: usize = mat_len as usize;
        let ghost out_before_mat = out@;
        let mut c: usize = 0;
        while c < mat_n
            invariant
                1 <= offset <= out_before_mat.len(),
                0 <= c <= mat_n,
                out@.len() == out_before_mat.len() + c,
                copy_match(out@, offset as int, (mat_n - c) as nat) == copy_match(
                    out_before_mat,
                    offset as int,
                    mat_n as nat,
                ),
            decreases mat_n - c,
        {
            let b = out[out.len() - offset];
            out.push(b);
            c = c + 1;
        }
        proof {
            lemma_copy_match_len(out_before_mat, offset as int, mat_n as nat);
            assert(out@ == copy_match(out2_g, offset as int, mat_len_g as nat));
            assert(decode_block(s, pos0, out0, glimit) == decode_block(
                s,
                p4_g,
                copy_match(out2_g, offset as int, mat_len_g as nat),
                glimit,
            ));
        }
    }
    Ok(out)
}

/// Extension bytes that encode a length remainder `r`: `255` bytes as long
/// as 255 or more remains, then one byte with the rest.
pub open spec fn ext_bytes(r: int) -> Seq<u8>
    decreases r,
{
    if r < 255 {
        seq![r as u8]
    } else {
        seq![255u8] + ext_bytes(r - 255)
    }
}

/// What `encode` returns on `p`: the signature, a single token whose literal
/// run is all of `p`, and no match.
pub open spec fn spec_encode(p: Seq<u8>) -> Seq<u8> {
    if p.len() < 15 {
        magic_bytes() + seq![(p.len() * 16) as u8] + p
    } else {
        magic_bytes() + seq![240u8] + ext_bytes(p.len() - 15) + p
    }
}

proof fn lemma_magic_len()
    ensures
        magic_bytes().len() == 8,
{
    reveal_strlit("mozLz40\u{0}");
    let l = "mozLz40\u{0}";
    assert(is_ascii_chars(l@));
    vstd::utf8::is_ascii_chars_encode_utf8(l@);
}

proof fn lemma_ext_bytes_len(r: int)
    requires
        r >= 0,
    ensures
        ext_bytes(r).len() == r / 255 + 1,
    decreases r,
{
    if r >= 255 {
        lemma_ext_bytes_len(r - 255);
    }
}

proof fn lemma_ext_decode(s: Seq<u8>, pos: int, r: int)
    requires
        0 <= pos,
        r >= 0,
        pos + ext_bytes(r).len() <= s.len(),
        s.subrange(pos, pos + ext_bytes(r).len() as int) == ext_bytes(r),
    ensures
        ext_count(s, pos) == ext_bytes(r).len() - 1,
        pos + ext_count(s, pos) < s.len(),
        255 * ext_count(s, pos) + s[pos + ext_count(s, pos)] == r,
    decreases r,
{
    assert(s[pos] == s.subrange(pos, pos + ext_bytes(r).len() as int)[0]);
    if r < 255 {
        assert(s[pos] == r as u8);
        assert(s[pos] != 255);
    } else {
        assert(s[pos] == 255);
        let tail = ext_bytes(r - 255);
        assert(s.subrange(pos + 1, pos + 1 + tail.len() as int) =~= tail) by {
            assert forall|i: int| 0 <= i < tail.len() implies s.subrange(
                pos + 1,
                pos + 1 + tail.len() as int,
            )[i] == tail[i] by {
                assert(s.subrange(pos, pos + ext_bytes(r).len() as int)[i + 1] == ext_bytes(r)[i
                    + 1]);
            }
        }
        lemma_ext_decode(s, pos + 1, r - 255);
    }
}

/// Every container the encoder produces decodes back to the plaintext.
pub proof fn lemma_decode_encode(p: Seq<u8>)
    requires
        p.len() <= MAX_PLAINTEXT,
    ensures
        spec_decode(spec_encode(p)) == Ok::<Seq<u8>, DecodeError>(p),
{
    lemma_magic_len();
    let m = magic_bytes();
    let enc = spec_encode(p);
    let pos = m.len() as int;
    assert(enc.subrange(0, m.len() as int) =~= m);
    let limit = out_limit(enc.len() as int);
    if p.len() < 15 {
        let token = (p.len() * 16) as u8;
        assert(enc.len() == m.len() + 1 + p.len());
        assert(enc[pos] == token);
        assert(token as int == p.len() * 16);
        assert(token as int / 16 == p.len() && token as int % 16 == 0) by (nonlinear_arith)
            requires
                token as int == p.len() * 16,
                p.len() < 15,
        ;
        assert(enc.subrange(pos + 1, pos + 1 + p.len() as int) =~= p);
        assert(Seq::<u8>::empty() + enc.subrange(pos + 1, pos + 1 + p.len() as int) =~= p);
        assert(decode_block(enc, pos, Seq::<u8>::empty(), limit) == Ok::<Seq<u8>, DecodeError>(p));
    } else {
        let r = p.len() - 15;
        lemma_ext_bytes_len(r);
        let ebs = ext_bytes(r);
        assert(r / 255 <= 15000000int / 255) by (nonlinear_arith)
            requires
                0 <= r <= 15000000int,
        ;
        assert(enc.len() == m.len() + 1 + ebs.len() + p.len());
        assert(enc.len() <= MAX_INPUT);
        assert(enc[pos] == 240u8);
        assert(240int / 16 == 15 && 240int % 16 == 0);
        assert(enc.subrange(pos + 1, pos + 1 + ebs.len() as int) =~= ebs);
        lemma_ext_decode(enc, pos + 1, r);
        let e1 = ext_count(enc, pos + 1);
        assert(e1 == ebs.len() - 1);
        let lit_len = 15 + 255 * e1 + enc[pos + 1 + e1];
        assert(lit_len == p.len());
        let p1 = pos + 1 + e1 + 1;
        assert(p1 == pos + 1 + ebs.len());
        assert(enc.subrange(p1, p1 + lit_len) =~= p);
        assert(Seq::<u8>::empty() + enc.subrange(p1, p1 + lit_len) =~= p);
        assert(decode_block(enc, pos, Seq::<u8>::empty(), limit) == Ok::<Seq<u8>, DecodeError>(p));
    }
}

/// Wraps `p` in a container: the signature, one token whose literal run is
/// all of `p`, and no match. `decode` recovers `p` exactly.
pub fn encode(p: &Vec<u8>) -> (r: Vec<u8>)
    requires
        p@.len() <= MAX_PLAINTEXT,
    ensures
        r@ == spec_encode(p@),
        spec_decode(r@) == Ok::<Seq<u8>, DecodeError>(p@),
{
    let mut out: Vec<u8> = Vec::new();
    push_bytes(&mut out, "mozLz40\u{0}".as_bytes());
    if p.len() < 15 {
        out.push((p.len() as u8) * 16);
        proof {
            assert(out@ =~= magic_bytes() + seq![(p@.len() * 16) as u8]);
        }
    } else {
        out.push(240);
        let ghost r0: int = p@.len() - 15;
        let ghost base = out@;
        proof {
            assert(base =~= magic_bytes() + seq![240u8]);
        }
        let mut rem: usize = p.len() - 15;
        while rem >= 255
            invariant
                0 <= rem <= r0,
                base == magic_bytes() + seq![240u8],
                out@ + ext_bytes(rem as int) == base + ext_bytes(r0),
            decreases rem,
        {
            out.push(255);
            rem = rem - 255;
            proof {
                assert(out@ + ext_bytes(rem as int) =~= base + ext_bytes(r0));
            }
        }
        out.push(rem as u8);
        proof {
            assert(ext_bytes(rem as int) =~= seq![rem as u8]);
            assert(out@ =~= base + ext_bytes(r0));
        }
    }
    push_bytes(&mut out, p.as_slice());
    proof {
        assert(out@ == spec_encode(p@));
        lemma_decode_encode(p@);
    }
    out
}

/// Reads extension bytes at `p0`: every `255` adds 255 and the first smaller
/// byte ends the run and is added. Fails with `Corrupt` when the input ends
/// inside the run.
fn read_extension(raw: &Vec<u8>, p0: usize) -> (r: Result<(u64, usize), DecodeError>)
    requires
        p0 <= raw@.len(),
        raw@.len() <= MAX_INPUT,
    ensures
        match r {
            Ok((v, p)) => {
                let e = ext_count(raw@, p0 as int);
                &&& p0 + e < raw@.len()
                &&& v == 255 * e + raw@[p0 + e]
                &&& p == p0 + e + 1
            },
            Err(err) => err == DecodeError::Corrupt && p0 + ext_count(raw@, p0 as int)
                >= raw@.len(),
        },
{
    let mut p: usize = p0;
    let mut v: u64 = 0;
    while p < raw.len() && raw[p] == 255
        invariant
            p0 <= p <= raw@.len(),
            raw@.len() <= MAX_INPUT,
            v == 255 * (p - p0),
            ext_count(raw@, p0 as int) == (p - p0) + ext_count(raw@, p as int),
        decreases raw@.len() - p,
    {
        v = v + 255;
        p = p + 1;
    }
    if p >= raw.len() {
        return Err(DecodeError::Corrupt);
    }
    Ok((v + raw[p] as u64, p + 1))
}

} // verus!
