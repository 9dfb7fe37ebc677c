use vstd::prelude::*;
use crate::keys::{
    clone_bytes, vk_wf, GroupElement, VerificationKey, VerificationKeyV, GROUP_ELEMENT_BYTES,
};

verus! {

/// What `bs58::decode` returns for a given string: the decoded bytes of a
/// valid base58 string, nothing for an invalid one.
pub uninterp spec fn bs58_decoding(s: Seq<char>) -> Option<Seq<u8>>;

/// Relies on bs58::encode with the default (Bitcoin) alphabet: the encoding
/// of a byte string is a valid base58 string that decodes back to exactly
/// those bytes.
#[verifier::external_body]
fn bs58_encode(bytes: &Vec<u8>) -> (r: String)
    ensures
        bs58_decoding(r@) == Some(bytes@),
{
    bs58::encode(bytes.as_slice()).into_string()
}

/// Relies on bs58::decode with the default (Bitcoin) alphabet: it returns
/// the decoded bytes of a valid base58 string and an error exactly on an
/// invalid one.
#[verifier::external_body]
fn bs58_decode(s: &String) -> (r: Option<Vec<u8>>)
    ensures
        match r {
            Some(v) => bs58_decoding(s@) == Some(v@),
            None => bs58_decoding(s@) is None,
        },
{
    match bs58::decode(s.as_str()).into_vec() {
        Ok(v) => Some(v),
        Err(_) => None,
    }
}

/// Concatenation of serialized group elements.
pub open spec fn concat_elements(bs: Seq<Seq<u8>>) -> Seq<u8>
    decreases bs.len(),
{
    if bs.len() == 0 {
        Seq::empty()
    } else {
        bs[0] + concat_elements(bs.drop_first())
    }
}

/// The byte form of a verification key: `alpha` first, then the `beta`
/// components in order, each a fixed-width group element.
pub open spec fn spec_serialize_vk(v: VerificationKeyV) -> Seq<u8> {
    v.alpha + concat_elements(v.betas)
}

/// Splits a byte string into consecutive group-element chunks.
pub open spec fn chunk_elements(b: Seq<u8>) -> Seq<Seq<u8>>
    decreases b.len(),
{
    if b.len() < GROUP_ELEMENT_BYTES {
        Seq::empty()
    } else {
        seq![b.subrange(0, GROUP_ELEMENT_BYTES as int)] + chunk_elements(
            b.skip(GROUP_ELEMENT_BYTES as int),
        )
    }
}

/// The verification key read back from its byte form: defined exactly on
/// byte strings holding one `alpha` and any number of `beta` elements.
pub open spec fn spec_parse_vk(b: Seq<u8>) -> Option<VerificationKeyV> {
    if b.len() >= GROUP_ELEMENT_BYTES && (b.len() as int) % (GROUP_ELEMENT_BYTES as int) == 0 {
        Some(
            VerificationKeyV {
                alpha: b.subrange(0, GROUP_ELEMENT_BYTES as int),
                betas: chunk_elements(b.skip(GROUP_ELEMENT_BYTES as int)),
            },
        )
    } else {
        None
    }
}

/// What a peer's published share decodes to: base58 decoding followed by the
/// byte-level parse.
pub open spec fn spec_vk_from_bs58(s: Seq<char>) -> Option<VerificationKeyV> {
    match bs58_decoding(s) {
        Some(b) => spec_parse_vk(b),
        None => None,
    }
}

proof fn lemma_concat_elements_len(bs: Seq<Seq<u8>>)
    requires
        forall|i: int| 0 <= i < bs.len() ==> (#[trigger] bs[i]).len() == GROUP_ELEMENT_BYTES,
    ensures
        concat_elements(bs).len() == bs.len() * GROUP_ELEMENT_BYTES,
    decreases bs.len(),
{
    if bs.len() == 0 {
    } else {
        lemma_concat_elements_len(bs.drop_first());
        assert(concat_elements(bs).len() == GROUP_ELEMENT_BYTES + (bs.len() - 1)
            * GROUP_ELEMENT_BYTES);
        assert(GROUP_ELEMENT_BYTES + (bs.len() - 1) * GROUP_ELEMENT_BYTES == bs.len()
            * GROUP_ELEMENT_BYTES) by (nonlinear_arith);
    }
}

proof fn lemma_chunk_of_concat(bs: Seq<Seq<u8>>)
    requires
        forall|i: int| 0 <= i < bs.len() ==> (#[trigger] bs[i]).len() == GROUP_ELEMENT_BYTES,
    ensures
        chunk_elements(concat_elements(bs)) == bs,
    decreases bs.len(),
{
    let g = GROUP_ELEMENT_BYTES as int;
    if bs.len() == 0 {
        assert(chunk_elements(concat_elements(bs)) =~= bs);
    } else {
        let c = concat_elements(bs);
        lemma_concat_elements_len(bs);
        assert(bs.len() * GROUP_ELEMENT_BYTES >= 1 * GROUP_ELEMENT_BYTES) by (nonlinear_arith)
            requires bs.len() >= 1;
        assert(c.subrange(0, g) =~= bs[0]);
        assert(c.skip(g) =~= concat_elements(bs.drop_first()));
        lemma_chunk_of_concat(bs.drop_first());
        assert(chunk_elements(c) =~= bs);
    }
}

/// The byte codec of a verification key is lossless: parsing the serialized
/// form of a well-formed key gives the key back.
pub proof fn lemma_vk_codec_roundtrip(v: VerificationKeyV)
    requires
        vk_wf(v),
    ensures
        spec_parse_vk(spec_serialize_vk(v)) == Some(v),
{
    let g = GROUP_ELEMENT_BYTES as int;
    let b = spec_serialize_vk(v);
    lemma_concat_elements_len(v.betas);
    assert(b.len() == (v.betas.len() + 1) * GROUP_ELEMENT_BYTES) by (nonlinear_arith)
        requires
            b.len() == GROUP_ELEMENT_BYTES + v.betas.len() * GROUP_ELEMENT_BYTES,
    ;
    assert((b.len() as int) % g == 0) by (nonlinear_arith)
        requires
            b.len() as int == (v.betas.len() + 1) * g,
            g > 0,
    ;
    assert(b.len() >= 1 * g) by (nonlinear_arith)
        requires
            b.len() as int == (v.betas.len() + 1) * g,
            g > 0,
            v.betas.len() >= 0,
    ;
    assert(b.subrange(0, g) =~= v.alpha);
    assert(b.skip(g) =~= concat_elements(v.betas));
    lemma_chunk_of_concat(v.betas);
    assert(spec_parse_vk(b) == Some(VerificationKeyV { alpha: v.alpha, betas: v.betas }));
    assert(VerificationKeyV { alpha: v.alpha, betas: v.betas } =~= v);
}

/// Every verification key read back by the parser is well formed.
pub proof fn lemma_parsed_vk_wf(b: Seq<u8>)
    ensures
        match spec_parse_vk(b) {
            Some(v) => vk_wf(v),
            None => true,
        },
{
    if b.len() >= GROUP_ELEMENT_BYTES && (b.len() as int) % (GROUP_ELEMENT_BYTES as int) == 0 {
        lemma_chunk_elements_wf(b.skip(GROUP_ELEMENT_BYTES as int));
    }
}

proof fn lemma_chunk_elements_wf(b: Seq<u8>)
    ensures
        forall|i: int|
            0 <= i < chunk_elements(b).len() ==> (#[trigger] chunk_elements(b)[i]).len()
                == GROUP_ELEMENT_BYTES,
    decreases b.len(),
{
    let g = GROUP_ELEMENT_BYTES as int;
    if b.len() < GROUP_ELEMENT_BYTES {
    } else {
        lemma_chunk_elements_wf(b.skip(g));
        assert forall|i: int|
            0 <= i < chunk_elements(b).len() implies (#[trigger] chunk_elements(b)[i]).len()
            == GROUP_ELEMENT_BYTES by {
            if i == 0 {
                assert(chunk_elements(b)[0] == b.subrange(0, g));
            } else {
                assert(chunk_elements(b)[i] == chunk_elements(b.skip(g))[i - 1]);
            }
        }
    }
}

/// A well-formed verification key round-trips through base58: any string
/// that base58-decodes to its serialized form parses back to the key
/// itself.
pub proof fn lemma_vk_share_roundtrip(v: VerificationKeyV)
    requires
        vk_wf(v),
    ensures
        forall|s: Seq<char>|
            bs58_decoding(s) == Some(spec_serialize_vk(v)) ==> #[trigger] spec_vk_from_bs58(s)
                == Some(v),
{
    lemma_vk_codec_roundtrip(v);
}

/// Copies the byte range `[a, b)` out of a vector.
fn subvec(v: &Vec<u8>, a: usize, b: usize) -> (r: Vec<u8>)
    requires
        a <= b <= v@.len(),
    ensures
        r@ == v@.subrange(a as int, b as int),
{
    let mut out: Vec<u8> = Vec::new();
    let mut i: usize = a;
    while i < b
        invariant
            a <= i <= b <= v@.len(),
            out@ == v@.subrange(a as int, i as int),
        decreases b - i,
    {
        out.push(v[i]);
        proof {
            assert(v@.subrange(a as int, i + 1 as int) =~= v@.subrange(a as int, i as int).push(
                v@[i as int],
            ));
        }
        i = i + 1;
    }
    out
}

/// Serializes a verification key: `alpha` first, then each `beta`.
pub fn vk_to_bytes(vk: &VerificationKey) -> (r: Vec<u8>)
    ensures
        r@ == spec_serialize_vk(vk@),
{
    let mut out = clone_bytes(&vk.alpha.bytes);
    let mut i: usize = 0;
    while i < vk.betas.len()
        invariant
            i <= vk.betas@.len(),
            out@ == vk@.alpha + concat_elements(vk@.betas.take(i as int)),
        decreases vk.betas@.len() - i,
    {
        let mut chunk = clone_bytes(&vk.betas[i].bytes);
        out.append(&mut chunk);
        proof {
            assert(vk@.betas.take(i + 1) =~= vk@.betas.take(i as int).push(vk@.betas[i as int]));
            lemma_concat_snoc(vk@.betas.take(i as int), vk@.betas[i as int]);
        }
        i = i + 1;
    }
    proof {
        assert(vk@.betas.take(vk.betas@.len() as int) =~= vk@.betas);
        assert(vk@.alpha + concat_elements(Seq::<Seq<u8>>::empty()) =~= vk@.alpha);
    }
    out
}

proof fn lemma_concat_snoc(bs: Seq<Seq<u8>>, x: Seq<u8>)
    ensures
        concat_elements(bs.push(x)) == concat_elements(bs) + x,
    decreases bs.len(),
{
    if bs.len() == 0 {
        assert(bs.push(x).drop_first() =~= Seq::<Seq<u8>>::empty());
        assert(concat_elements(Seq::<Seq<u8>>::empty()) =~= Seq::<u8>::empty());
        assert(bs.push(x)[0] == x);
        assert(concat_elements(bs.push(x)) =~= concat_elements(bs) + x);
    } else {
        assert(bs.push(x).drop_first() =~= bs.drop_first().push(x));
        lemma_concat_snoc(bs.drop_first(), x);
        assert(concat_elements(bs.push(x)) =~= concat_elements(bs) + x);
    }
}

proof fn lemma_chunk_snoc(s: Seq<u8>, x: Seq<u8>)
    requires
        (s.len() as int) % (GROUP_ELEMENT_BYTES as int) == 0,
        x.len() == GROUP_ELEMENT_BYTES,
    ensures
        chunk_elements(s + x) == chunk_elements(s).push(x),
    decreases s.len(),
{
    let g = GROUP_ELEMENT_BYTES as int;
    if s.len() == 0 {
        assert(s + x =~= x);
        assert(x.skip(g).len() < GROUP_ELEMENT_BYTES);
        assert(chunk_elements(x.skip(g)) =~= Seq::<Seq<u8>>::empty());
        assert(x.subrange(0, g) =~= x);
        assert(chunk_elements(x) =~= chunk_elements(s).push(x));
    } else {
        assert(s.len() >= g);
        assert((s + x).subrange(0, g) =~= s.subrange(0, g));
        assert((s + x).skip(g) =~= s.skip(g) + x);
        assert((s.skip(g).len() as int) % g == 0);
        lemma_chunk_snoc(s.skip(g), x);
        assert(chunk_elements(s + x) =~= chunk_elements(s).push(x));
    }
}

/// Parses the byte form of a verification key; fails on any byte string
/// that is not a whole number of group elements, at least one.
pub fn vk_from_bytes(bytes: &Vec<u8>) -> (r: Option<VerificationKey>)
    ensures
        match r {
            Some(vk) => spec_parse_vk(bytes@) == Some(vk@) && vk_wf(vk@),
            None => spec_parse_vk(bytes@) is None,
        },
{
    let g = GROUP_ELEMENT_BYTES;
    let n = bytes.len();
    if n < g || n % g != 0 {
        return None;
    }
    let alpha = GroupElement { bytes: subvec(bytes, 0, g) };
    let mut betas: Vec<GroupElement> = Vec::new();
    let mut off: usize = g;
    while off < n
        invariant
            g == GROUP_ELEMENT_BYTES,
            n == bytes@.len(),
            g <= off <= n,
            n % g == 0,
            off % g == 0,
            betas@.map_values(|e: GroupElement| e@) == chunk_elements(
                bytes@.subrange(g as int, off as int),
            ),
        decreases n - off,
    {
        proof {
            assert(n - off >= g) by (nonlinear_arith)
                requires
                    off < n,
                    (off as int) % (g as int) == 0,
                    (n as int) % (g as int) == 0,
                    g > 0,
            ;
        }
        let chunk = GroupElement { bytes: subvec(bytes, off, off + g) };
        proof {
            assert(bytes@.subrange(g as int, off + g) =~= bytes@.subrange(g as int, off as int)
                + bytes@.subrange(off as int, off + g));
            assert((bytes@.subrange(g as int, off as int).len() as int) % (g as int) == 0);
            lemma_chunk_snoc(
                bytes@.subrange(g as int, off as int),
                bytes@.subrange(off as int, off + g),
            );
        }
        betas.push(chunk);
        proof {
            assert(betas@.map_values(|e: GroupElement| e@) =~= chunk_elements(
                bytes@.subrange(g as int, off + g),
            ));
        }
        off = off + g;
    }
    let vk = VerificationKey { alpha, betas };
    proof {
        assert(bytes@.subrange(g as int, n as int) =~= bytes@.skip(g as int));
        lemma_parsed_vk_wf(bytes@);
        assert(vk@ =~= spec_parse_vk(bytes@)->Some_0);
    }
    Some(vk)
}

/// Encodes a verification key as a base58 share string.
pub fn vk_to_bs58(vk: &VerificationKey) -> (r: String)
    ensures
        bs58_decoding(r@) == Some(spec_serialize_vk(vk@)),
{
    let bytes = vk_to_bytes(vk);
    bs58_encode(&bytes)
}

/// Decodes a peer's published share: base58 decoding followed by the byte
/// parse. Fails exactly on strings that are not valid base58 or whose bytes
/// are not a whole, non-empty row of group elements.
pub fn vk_try_from_bs58(s: &String) -> (r: Option<VerificationKey>)
    ensures
        match r {
            Some(vk) => spec_vk_from_bs58(s@) == Some(vk@) && vk_wf(vk@),
            None => spec_vk_from_bs58(s@) is None,
        },
{
    match bs58_decode(s) {
        Some(bytes) => vk_from_bytes(&bytes),
        None => None,
    }
}

} // verus!
