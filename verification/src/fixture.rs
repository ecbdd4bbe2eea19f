//! Talking to the fixture server without the talking: the URL of each
//! resource it serves, and the decoding of the Base64 lists it answers with.

use vstd::prelude::*;
use base64::Engine;
use crate::suite::ZKPType;
use crate::text::{
    decimal, lemma_decimal_parses, lemma_split_append_nosep, lemma_split_on_nonempty, parse_unsigned,
    push_decimal, split_on, is_digit,
};
use vstd::utf8::encode_utf8;

verus! {

#[verifier::external_type_specification]
#[verifier::external_body]
pub struct ExDecodeError(base64::DecodeError);

/// The stages of the key generation whose fixtures the server holds.
#[derive(Clone, Copy, Debug, PartialEq, Eq, Structural)]
pub enum DkgStage {
    /// The finished key generation of one device.
    Completed,
    /// The first-round packages addressed to one device.
    Round1,
    /// The first- and second-round packages addressed to one device.
    Round2,
}

/// The per-proof-system resources the server holds.
#[derive(Clone, Copy, Debug, PartialEq, Eq, Structural)]
pub enum ZkpResource {
    /// A sample proof package.
    Proof,
    /// Verified ciphertexts.
    Ciphertexts,
    /// One partial decryption with its aggregate.
    Partial,
    /// A threshold's worth of partial decryptions.
    Partials,
}

/// The path segment of a key-generation stage.
pub open spec fn stage_segment(s: DkgStage) -> Seq<char> {
    match s {
        DkgStage::Completed => "completed"@,
        DkgStage::Round1 => "round1"@,
        DkgStage::Round2 => "round2"@,
    }
}

/// The path segment of a resource.
pub open spec fn resource_segment(r: ZkpResource) -> Seq<char> {
    match r {
        ZkpResource::Proof => "proof"@,
        ZkpResource::Ciphertexts => "ciphertexts"@,
        ZkpResource::Partial => "partial"@,
        ZkpResource::Partials => "partials"@,
    }
}

/// The path segment of a proof system.
pub open spec fn zkp_segment(z: ZKPType) -> Seq<char> {
    match z {
        ZKPType::Bulletproof => "bulletproof"@,
        ZKPType::SNARK => "snark"@,
        ZKPType::STARK => "stark"@,
    }
}

/// `<base>/api/dkg/<stage>/<n>/<t>/<device_id>`.
pub open spec fn dkg_url_spec(base: Seq<char>, stage: DkgStage, n: nat, t: nat, device_id: nat) -> Seq<
    char,
> {
    base + "/api/dkg/"@ + stage_segment(stage) + "/"@ + decimal(n) + "/"@ + decimal(t) + "/"@
        + decimal(device_id)
}

/// `<base>/api/<resource>/<zkp>/<n>/<t>`.
pub open spec fn zkp_url_spec(base: Seq<char>, resource: ZkpResource, zkp: ZKPType, n: nat, t: nat) -> Seq<
    char,
> {
    base + "/api/"@ + resource_segment(resource) + "/"@ + zkp_segment(zkp) + "/"@ + decimal(n)
        + "/"@ + decimal(t)
}

/// The path made of `segs`, each after a slash.
pub open spec fn path_of(segs: Seq<Seq<char>>) -> Seq<char>
    decreases segs.len(),
{
    if segs.len() == 0 {
        Seq::<char>::empty()
    } else {
        path_of(segs.drop_last()).push('/') + segs.last()
    }
}

/// No slash in `s`.
pub open spec fn no_slash(s: Seq<char>) -> bool {
    forall|i: int| 0 <= i < s.len() ==> s[i] != '/'
}

/// Splitting a path at its slashes gives back its segments after an empty
/// first piece.
proof fn lemma_split_path(segs: Seq<Seq<char>>)
    requires
        forall|i: int| 0 <= i < segs.len() ==> no_slash(#[trigger] segs[i]),
    ensures
        split_on(path_of(segs), '/') == seq![Seq::<char>::empty()] + segs,
    decreases segs.len(),
{
    if segs.len() == 0 {
        assert(seq![Seq::<char>::empty()] + segs =~= seq![Seq::<char>::empty()]);
    } else {
        let prev = segs.drop_last();
        assert forall|i: int| 0 <= i < prev.len() implies no_slash(#[trigger] prev[i]) by {
            assert(prev[i] == segs[i]);
        }
        lemma_split_path(prev);
        let p = path_of(prev);
        let pc = p.push('/');
        assert(pc.drop_last() == p);
        lemma_split_on_nonempty(p, '/');
        assert(split_on(pc, '/') == split_on(p, '/').push(Seq::<char>::empty()));
        let last = segs.last();
        assert(no_slash(segs[segs.len() - 1]));
        lemma_split_append_nosep(pc, last, '/');
        assert(Seq::<char>::empty() + last =~= last);
        assert(split_on(pc + last, '/') =~= seq![Seq::<char>::empty()] + segs);
    }
}

/// A decimal rendering has no slash.
proof fn lemma_decimal_no_slash(n: nat)
    ensures
        no_slash(decimal(n)),
        parse_unsigned(decimal(n)) == Some(n),
{
    lemma_decimal_parses(n);
    let d = decimal(n);
    assert forall|i: int| 0 <= i < d.len() implies d[i] != '/' by {
        assert(is_digit(d[i]));
    }
}

/// The DKG fixture URL is the base followed by the path
/// `/api/dkg/<stage>/<n>/<t>/<device_id>`: split at its slashes, the part after
/// the base gives the stage and then numbers that read back as `n`, `t` and
/// the device.
pub proof fn law_dkg_url_segments(base: Seq<char>, stage: DkgStage, n: nat, t: nat, device_id: nat)
    ensures
        dkg_url_spec(base, stage, n, t, device_id).take(base.len() as int) == base,
        split_on(dkg_url_spec(base, stage, n, t, device_id).skip(base.len() as int), '/').len()
            == 7,
        split_on(dkg_url_spec(base, stage, n, t, device_id).skip(base.len() as int), '/')[1]
            == "api"@,
        split_on(dkg_url_spec(base, stage, n, t, device_id).skip(base.len() as int), '/')[2]
            == "dkg"@,
        split_on(dkg_url_spec(base, stage, n, t, device_id).skip(base.len() as int), '/')[3]
            == stage_segment(stage),
        parse_unsigned(
            split_on(dkg_url_spec(base, stage, n, t, device_id).skip(base.len() as int), '/')[4],
        ) == Some(n),
        parse_unsigned(
            split_on(dkg_url_spec(base, stage, n, t, device_id).skip(base.len() as int), '/')[5],
        ) == Some(t),
        parse_unsigned(
            split_on(dkg_url_spec(base, stage, n, t, device_id).skip(base.len() as int), '/')[6],
        ) == Some(device_id),
{
    reveal_strlit("/api/dkg/");
    reveal_strlit("/");
    reveal_strlit("api");
    reveal_strlit("dkg");
    reveal_strlit("completed");
    reveal_strlit("round1");
    reveal_strlit("round2");
    lemma_decimal_no_slash(n);
    lemma_decimal_no_slash(t);
    lemma_decimal_no_slash(device_id);
    let segs = seq!["api"@, "dkg"@, stage_segment(stage), decimal(n), decimal(t), decimal(device_id)];
    assert(no_slash(stage_segment(stage)));
    assert(no_slash("api"@) && no_slash("dkg"@));
    assert forall|i: int| 0 <= i < segs.len() implies no_slash(#[trigger] segs[i]) by {}
    lemma_split_path(segs);
    reveal_with_fuel(path_of, 7);
    let u = dkg_url_spec(base, stage, n, t, device_id);
    assert(u.skip(base.len() as int) =~= path_of(segs));
    assert(u.take(base.len() as int) =~= base);
}

/// The per-proof-system fixture URL is the base followed by the path
/// `/api/<resource>/<zkp>/<n>/<t>`: split at its slashes, the part after the
/// base gives the resource, the proof system and numbers that read back as
/// `n` and `t`.
pub proof fn law_zkp_url_segments(base: Seq<char>, resource: ZkpResource, zkp: ZKPType, n: nat, t: nat)
    ensures
        zkp_url_spec(base, resource, zkp, n, t).take(base.len() as int) == base,
        split_on(zkp_url_spec(base, resource, zkp, n, t).skip(base.len() as int), '/').len() == 6,
        split_on(zkp_url_spec(base, resource, zkp, n, t).skip(base.len() as int), '/')[1]
            == "api"@,
        split_on(zkp_url_spec(base, resource, zkp, n, t).skip(base.len() as int), '/')[2]
            == resource_segment(resource),
        split_on(zkp_url_spec(base, resource, zkp, n, t).skip(base.len() as int), '/')[3]
            == zkp_segment(zkp),
        parse_unsigned(
            split_on(zkp_url_spec(base, resource, zkp, n, t).skip(base.len() as int), '/')[4],
        ) == Some(n),
        parse_unsigned(
            split_on(zkp_url_spec(base, resource, zkp, n, t).skip(base.len() as int), '/')[5],
        ) == Some(t),
{
    reveal_strlit("/api/");
    reveal_strlit("/");
    reveal_strlit("api");
    reveal_strlit("proof");
    reveal_strlit("ciphertexts");
    reveal_strlit("partial");
    reveal_strlit("partials");
    reveal_strlit("bulletproof");
    reveal_strlit("snark");
    reveal_strlit("stark");
    lemma_decimal_no_slash(n);
    lemma_decimal_no_slash(t);
    let segs = seq!["api"@, resource_segment(resource), zkp_segment(zkp), decimal(n), decimal(t)];
    assert(no_slash(resource_segment(resource)));
    assert(no_slash(zkp_segment(zkp)));
    assert(no_slash("api"@));
    assert forall|i: int| 0 <= i < segs.len() implies no_slash(#[trigger] segs[i]) by {}
    lemma_split_path(segs);
    reveal_with_fuel(path_of, 6);
    let u = zkp_url_spec(base, resource, zkp, n, t);
    assert(u.skip(base.len() as int) =~= path_of(segs));
    assert(u.take(base.len() as int) =~= base);
}

/// The path segment of a proof system.
pub fn zkp_str(z: ZKPType) -> (r: &'static str)
    ensures
        r@ == zkp_segment(z),
{
    match z {
        ZKPType::Bulletproof => "bulletproof",
        ZKPType::SNARK => "snark",
        ZKPType::STARK => "stark",
    }
}

fn stage_str(s: DkgStage) -> (r: &'static str)
    ensures
        r@ == stage_segment(s),
{
    match s {
        DkgStage::Completed => "completed",
        DkgStage::Round1 => "round1",
        DkgStage::Round2 => "round2",
    }
}

fn resource_str(r: ZkpResource) -> (out: &'static str)
    ensures
        out@ == resource_segment(r),
{
    match r {
        ZkpResource::Proof => "proof",
        ZkpResource::Ciphertexts => "ciphertexts",
        ZkpResource::Partial => "partial",
        ZkpResource::Partials => "partials",
    }
}

/// The URL of a key-generation fixture of `device_id` in the `(n, t)`
/// deployment.
pub fn dkg_url(base: &str, stage: DkgStage, n: usize, t: usize, device_id: u32) -> (r: String)
    ensures
        r@ == dkg_url_spec(base@, stage, n as nat, t as nat, device_id as nat),
{
    let mut u = String::from_str(base);
    u.append("/api/dkg/");
    u.append(stage_str(stage));
    u.append("/");
    push_decimal(&mut u, n as u64);
    u.append("/");
    push_decimal(&mut u, t as u64);
    u.append("/");
    push_decimal(&mut u, device_id as u64);
    assert(u@ =~= dkg_url_spec(base@, stage, n as nat, t as nat, device_id as nat));
    u
}

/// The URL of a per-proof-system fixture of the `(n, t)` deployment.
pub fn zkp_url(base: &str, resource: ZkpResource, zkp: ZKPType, n: usize, t: usize) -> (r: String)
    ensures
        r@ == zkp_url_spec(base@, resource, zkp, n as nat, t as nat),
{
    let mut u = String::from_str(base);
    u.append("/api/");
    u.append(resource_str(resource));
    u.append("/");
    u.append(zkp_str(zkp));
    u.append("/");
    push_decimal(&mut u, n as u64);
    u.append("/");
    push_decimal(&mut u, t as u64);
    assert(u@ =~= zkp_url_spec(base@, resource, zkp, n as nat, t as nat));
    u
}

/// What the standard Base64 engine (the standard alphabet with canonical
/// padding) makes of `input`: the decoded bytes, or the error it rejects the
/// input with.
pub uninterp spec fn base64_standard_decode(input: Seq<u8>) -> Result<Seq<u8>, base64::DecodeError>;

/// `base64::engine::general_purpose::STANDARD.decode`. Claimed: its result,
/// the decoded bytes or the error, is a function of the input bytes alone.
#[verifier::external_body]
fn base64_decode(input: &[u8]) -> (r: Result<Vec<u8>, base64::DecodeError>)
    ensures
        match r {
            Ok(v) => base64_standard_decode(input@) == Ok::<Seq<u8>, base64::DecodeError>(v@),
            Err(e) => base64_standard_decode(input@) == Err::<Seq<u8>, base64::DecodeError>(e),
        },
{
    base64::engine::general_purpose::STANDARD.decode(input)
}

/// Why a fixture answer could not be taken.
#[derive(Debug)]
pub enum FixtureError {
    /// An item of a Base64 list did not decode.
    Base64(base64::DecodeError),
}

/// Decodes one Base64 text.
pub fn decode_item(encoded: &str) -> (r: Result<Vec<u8>, FixtureError>)
    ensures
        match r {
            Ok(v) => base64_standard_decode(encode_utf8(encoded@)) == Ok::<
                Seq<u8>,
                base64::DecodeError,
            >(v@),
            Err(FixtureError::Base64(e)) => base64_standard_decode(encode_utf8(encoded@)) == Err::<
                Seq<u8>,
                base64::DecodeError,
            >(e),
        },
{
    match base64_decode(encoded.as_bytes()) {
        Ok(v) => Ok(v),
        Err(e) => Err(FixtureError::Base64(e)),
    }
}

/// The bytes of each text of a list, in UTF-8.
pub open spec fn utf8_items(v: Seq<String>) -> Seq<Seq<u8>> {
    v.map_values(|s: String| encode_utf8(s@))
}

/// Every item decodes.
pub open spec fn all_decode(items: Seq<Seq<u8>>) -> bool {
    forall|i: int| 0 <= i < items.len() ==> (#[trigger] base64_standard_decode(items[i])) is Ok
}

/// The error of the first item that does not decode, if any.
pub open spec fn first_decode_error(items: Seq<Seq<u8>>) -> Option<base64::DecodeError>
    decreases items.len(),
{
    if items.len() == 0 {
        None
    } else {
        match base64_standard_decode(items[0]) {
            Err(e) => Some(e),
            Ok(_) => first_decode_error(items.drop_first()),
        }
    }
}

/// A list whose items all decode has no first error.
proof fn lemma_all_decode_no_error(items: Seq<Seq<u8>>)
    requires
        all_decode(items),
    ensures
        first_decode_error(items) is None,
    decreases items.len(),
{
    if items.len() > 0 {
        assert(base64_standard_decode(items[0]) is Ok);
        let rest = items.drop_first();
        assert forall|i: int| 0 <= i < rest.len() implies (#[trigger] base64_standard_decode(
            rest[i],
        )) is Ok by {
            assert(rest[i] == items[i + 1]);
        }
        lemma_all_decode_no_error(rest);
    }
}

/// Decodes every item of a Base64 list, in order; fails with the error of the
/// first item that does not decode.
pub fn decode_all(encoded: &Vec<String>) -> (r: Result<Vec<Vec<u8>>, FixtureError>)
    ensures
        r is Ok <==> all_decode(utf8_items(encoded@)),
        r matches Ok(v) ==> v@.len() == encoded@.len() && forall|i: int|
            0 <= i < v@.len() ==> base64_standard_decode(utf8_items(encoded@)[i]) == Ok::<
                Seq<u8>,
                base64::DecodeError,
            >((#[trigger] v@[i])@),
        r matches Err(FixtureError::Base64(e)) ==> first_decode_error(utf8_items(encoded@)) == Some(
            e,
        ),
{
    let ghost items = utf8_items(encoded@);
    let mut out: Vec<Vec<u8>> = Vec::new();
    assert(items.skip(0) == items);
    for i in 0..encoded.len()
        invariant
            items == utf8_items(encoded@),
            out@.len() == i,
            forall|j: int|
                0 <= j < i ==> base64_standard_decode(items[j]) == Ok::<Seq<u8>, base64::DecodeError>(
                    (#[trigger] out@[j])@,
                ),
            first_decode_error(items) == first_decode_error(items.skip(i as int)),
    {
        assert(encode_utf8(encoded@[i as int]@) == items[i as int]);
        let ghost rest = items.skip(i as int);
        assert(rest[0] == items[i as int]);
        assert(rest.drop_first() == items.skip(i + 1));
        match decode_item(encoded[i].as_str()) {
            Ok(v) => {
                out.push(v);
            },
            Err(e) => {
                assert(base64_standard_decode(items[i as int]) is Err);
                return Err(e);
            },
        }
    }
    assert forall|i: int| 0 <= i < items.len() implies (#[trigger] base64_standard_decode(
        items[i],
    )) is Ok by {
        assert(base64_standard_decode(items[i]) == Ok::<Seq<u8>, base64::DecodeError>(
            out@[i]@,
        ));
    }
    Ok(out)
}

/// Decodes the first- and second-round package lists of a round-2 fixture;
/// succeeds when both decode completely, and otherwise fails with the first
/// error of the first list, or, when that list decodes, of the second.
pub fn decode_round2(r1: &Vec<String>, r2: &Vec<String>) -> (r: Result<
    (Vec<Vec<u8>>, Vec<Vec<u8>>),
    FixtureError,
>)
    ensures
        r is Ok <==> all_decode(utf8_items(r1@)) && all_decode(utf8_items(r2@)),
        r matches Ok((a, b)) ==> {
            &&& a@.len() == r1@.len()
            &&& b@.len() == r2@.len()
            &&& forall|i: int|
                0 <= i < a@.len() ==> base64_standard_decode(utf8_items(r1@)[i]) == Ok::<
                    Seq<u8>,
                    base64::DecodeError,
                >((#[trigger] a@[i])@)
            &&& forall|i: int|
                0 <= i < b@.len() ==> base64_standard_decode(utf8_items(r2@)[i]) == Ok::<
                    Seq<u8>,
                    base64::DecodeError,
                >((#[trigger] b@[i])@)
        },
        r matches Err(FixtureError::Base64(e)) ==> if first_decode_error(utf8_items(r1@)) is Some {
            first_decode_error(utf8_items(r1@)) == Some(e)
        } else {
            first_decode_error(utf8_items(r2@)) == Some(e)
        },
{
    let first = decode_all(r1);
    let second = decode_all(r2);
    match first {
        Ok(a) => {
            proof {
                lemma_all_decode_no_error(utf8_items(r1@));
            }
            match second {
                Ok(b) => Ok((a, b)),
                Err(e) => Err(e),
            }
        },
        Err(e) => Err(e),
    }
}

} // verus!
