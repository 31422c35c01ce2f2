//! SD-JWT envelopes, and what they show.
//!
//! An envelope is a JWT and any number of disclosures, each followed by `~`. The
//! payload of the JWT has the visible claims, and in `_sd` a commitment to every
//! hidden one. A disclosure opens one commitment: it is the base64url text of the
//! JSON array of a salt, the name of the claim and its value.

use vstd::prelude::*;
use vstd::string::*;
use vstd::utf8::{
    decode_utf8, encode_utf8, encode_utf8_decode_utf8, encode_utf8_valid_utf8, valid_utf8,
};
use crate::json::{as_text, text_items, text_list, text_member, texts_of, trees, Json, JsonMap, JsonTree};
use crate::outside::{
    b64_char, b64_read, b64_text, json_read, read_b64, sha256, sha256_of, sha384, sha384_of, sha512,
    sha512_of, utf8_fault, write_b64,
};
use crate::receipt::{DisclosureError, DisclosureFault};
use crate::text::{
    concat2, concat3, decimal, decimal_text, holds, law_pieces_make_up_the_text,
    lemma_one_more_piece, lemma_one_piece, pieces, same_text, split, texts,
};

verus! {

broadcast use vstd::string::group_string_axioms;

/// Whether disclosures can be hashed by the algorithm `alg`.
pub open spec fn supported(alg: Seq<char>) -> bool {
    alg == "sha-256"@ || alg == "sha-384"@ || alg == "sha-512"@
}

/// The digest of `bytes` by the algorithm `alg`, one of those supported.
pub open spec fn hashed(alg: Seq<char>, bytes: Seq<u8>) -> Seq<u8> {
    if alg == "sha-384"@ {
        sha384(bytes)
    } else if alg == "sha-512"@ {
        sha512(bytes)
    } else {
        sha256(bytes)
    }
}

/// The commitment to the disclosure `d`: the base64url text of the digest of its
/// characters.
pub open spec fn commitment(alg: Seq<char>, d: Seq<char>) -> Seq<char> {
    b64_text(hashed(alg, encode_utf8(d)))
}

/// The bytes that `text` says in base64url.
pub open spec fn decoded_text(text: Seq<char>) -> Result<Seq<u8>, DisclosureFault> {
    match b64_read(text) {
        Ok(bytes) => Ok(bytes),
        Err(e) => Err(DisclosureFault::Crypto("base64url decode: "@ + e)),
    }
}

/// The claims in the payload of an unsigned JWT.
pub open spec fn jwt_claims(jwt: Seq<char>) -> Result<Map<Seq<char>, JsonTree>, DisclosureFault> {
    let segments = pieces(jwt, '.');
    if segments.len() < 2 {
        Err(DisclosureFault::Crypto("JWT missing payload"@))
    } else if segments.len() > 3 {
        Err(DisclosureFault::Crypto("JWT has too many segments"@))
    } else {
        match decoded_text(segments[1]) {
            Err(f) => Err(f),
            Ok(bytes) => match json_read(bytes) {
                Err(e) => Err(DisclosureFault::Crypto("decode JWT payload: "@ + e)),
                Ok(JsonTree::Object(claims)) => Ok(claims),
                Ok(_) => Err(DisclosureFault::Crypto("JWT payload not an object"@)),
            },
        }
    }
}

/// The claim that the JSON of a disclosure says.
pub open spec fn disclosed_claim(t: JsonTree) -> Result<(Seq<char>, JsonTree), DisclosureFault> {
    match t {
        JsonTree::Array(items) => if items.len() != 3 {
            Err(
                DisclosureFault::Crypto(
                    "disclosure length "@ + decimal(items.len()) + " (want 3)"@,
                ),
            )
        } else {
            match as_text(items[1]) {
                Some(name) => Ok((name, items[2])),
                None => Err(DisclosureFault::Crypto("disclosure[1] not string"@)),
            }
        },
        _ => Err(DisclosureFault::Crypto("disclosure not an array"@)),
    }
}

/// The error for the disclosure `d` if it is not committed to.
pub open spec fn not_committed(d: Seq<char>) -> DisclosureFault {
    DisclosureFault::Crypto("disclosure not committed in _sd: "@ + d)
}

/// The claim that the disclosure `d` opens, if it is committed to.
pub open spec fn opened(alg: Seq<char>, committed: Seq<Seq<char>>, d: Seq<char>) -> Result<
    (Seq<char>, JsonTree),
    DisclosureFault,
> {
    if !committed.contains(commitment(alg, d)) {
        Err(not_committed(d))
    } else {
        match decoded_text(d) {
            Err(f) => Err(f),
            Ok(bytes) => match json_read(bytes) {
                Err(e) => Err(DisclosureFault::Crypto("disclosure not JSON: "@ + e)),
                Ok(t) => disclosed_claim(t),
            },
        }
    }
}

/// `claims` with the claims that the disclosures `ds` open, one after another.
pub open spec fn with_opened(
    alg: Seq<char>,
    claims: Map<Seq<char>, JsonTree>,
    committed: Seq<Seq<char>>,
    ds: Seq<Seq<char>>,
) -> Result<Map<Seq<char>, JsonTree>, DisclosureFault>
    decreases ds.len(),
{
    if ds.len() == 0 {
        Ok(claims)
    } else {
        match with_opened(alg, claims, committed, ds.drop_last()) {
            Err(f) => Err(f),
            Ok(before) => match opened(alg, committed, ds.last()) {
                Err(f) => Err(f),
                Ok((name, value)) => Ok(before.insert(name, value)),
            },
        }
    }
}

/// The texts of `list` that are not empty, in their order.
pub open spec fn non_empty(list: Seq<Seq<char>>) -> Seq<Seq<char>>
    decreases list.len(),
{
    if list.len() == 0 {
        seq![]
    } else if list.last().len() == 0 {
        non_empty(list.drop_last())
    } else {
        non_empty(list.drop_last()).push(list.last())
    }
}

/// The message for a hash algorithm that is not supported.
pub open spec fn unsupported_alg(alg: Seq<char>) -> DisclosureFault {
    DisclosureFault::Unsupported("hash alg "@ + alg + " (only 'sha-256' supported in v0.1)"@)
}

/// The hash algorithm that the claims of a JWT name; SHA-256 where they name
/// none.
pub open spec fn named_alg(claims: Map<Seq<char>, JsonTree>) -> Seq<char> {
    match text_member(JsonTree::Object(claims), "_sd_alg"@) {
        Some(alg) => alg,
        None => "sha-256"@,
    }
}

/// The claims that a JWT with the claims `claims` and the disclosures `ds`
/// show.
pub open spec fn shown_claims(claims: Map<Seq<char>, JsonTree>, ds: Seq<Seq<char>>) -> Result<
    Map<Seq<char>, JsonTree>,
    DisclosureFault,
> {
    if !supported(named_alg(claims)) {
        Err(unsupported_alg(named_alg(claims)))
    } else {
        with_opened(
            named_alg(claims),
            claims.remove("_sd"@).remove("_sd_alg"@),
            text_list(JsonTree::Object(claims), "_sd"@),
            ds,
        )
    }
}

/// The parts of an envelope's text: the JWT, and what stands after it. A `~` at
/// the end is no part.
pub open spec fn envelope_parts(text: Seq<char>) -> Seq<Seq<char>> {
    pieces(
        if text.len() > 0 && text.last() == '~' {
            text.drop_last()
        } else {
            text
        },
        '~',
    )
}

/// The disclosures in the text of an envelope.
pub open spec fn presented(text: Seq<char>) -> Seq<Seq<char>> {
    non_empty(envelope_parts(text).skip(1))
}

/// The claims that the text of an envelope shows.
pub open spec fn text_verified(text: Seq<char>) -> Result<Map<Seq<char>, JsonTree>, DisclosureFault> {
    match jwt_claims(envelope_parts(text)[0]) {
        Err(f) => Err(f),
        Ok(claims) => shown_claims(claims, presented(text)),
    }
}

/// The payload that an envelope shows, or the first thing that is wrong with it.
pub open spec fn verified(scheme: Seq<char>, bytes: Seq<u8>) -> Result<JsonTree, DisclosureFault> {
    if scheme != "sd-jwt"@ {
        Err(DisclosureFault::Unsupported(scheme))
    } else if !valid_utf8(bytes) {
        Err(DisclosureFault::Crypto("envelope utf-8: "@ + utf8_fault(bytes)))
    } else {
        match text_verified(decode_utf8(bytes)) {
            Ok(claims) => Ok(JsonTree::Object(claims)),
            Err(f) => Err(f),
        }
    }
}

/// The base64url text of `input`, without padding. Decoding gives `input` back.
pub fn b64(input: &[u8]) -> (r: String)
    ensures
        r@ == b64_text(input@),
        decoded_text(r@) == Ok::<Seq<u8>, DisclosureFault>(input@),
        forall|i: int| 0 <= i < r@.len() ==> b64_char(#[trigger] r@[i]),
        r@.len() == (4 * input@.len() + 2) / 3,
{
    write_b64(input)
}

/// The bytes that `input` says in base64url. No other text says the same bytes.
pub fn b64d(input: &str) -> (r: Result<Vec<u8>, DisclosureError>)
    ensures
        match r {
            Ok(bytes) => {
                &&& decoded_text(input@) == Ok::<Seq<u8>, DisclosureFault>(bytes@)
                &&& b64_text(bytes@) == input@
            },
            Err(e) => decoded_text(input@) == Err::<Seq<u8>, DisclosureFault>(e@),
        },
        match b64_read(input@) {
            Ok(bytes) => r is Ok && r->Ok_0@ == bytes,
            Err(e) => r is Err && r->Err_0@ == DisclosureFault::Crypto("base64url decode: "@ + e),
        },
{
    match read_b64(input) {
        Ok(bytes) => Ok(bytes),
        Err(e) => Err(DisclosureError::Crypto(concat2("base64url decode: ", e.as_str()))),
    }
}

/// Whether disclosures can be hashed by the algorithm `alg`.
pub fn is_supported(alg: &str) -> (r: bool)
    ensures
        r == supported(alg@),
        r <==> (alg@ == "sha-256"@ || alg@ == "sha-384"@ || alg@ == "sha-512"@),
{
    same_text(alg, "sha-256") || same_text(alg, "sha-384") || same_text(alg, "sha-512")
}

/// The commitment to a disclosure by SHA-256.
pub fn hash_disclosure_sha256(disclosure_b64: &str) -> (r: String)
    ensures
        r@ == commitment("sha-256"@, disclosure_b64@),
        r@ == b64_text(sha256(encode_utf8(disclosure_b64@))),
        r@.len() == 43,
{
    proof {
        lemma_alg_names();
    }
    let digest: Vec<u8> = sha256_of(disclosure_b64.as_bytes());
    b64(digest.as_slice())
}

/// The commitment to a disclosure by the algorithm `alg`.
pub fn hash_disclosure(alg: &str, disclosure_b64: &str) -> (r: String)
    requires
        supported(alg@),
    ensures
        r@ == commitment(alg@, disclosure_b64@),
        alg@ == "sha-256"@ ==> r@ == b64_text(sha256(encode_utf8(disclosure_b64@))),
        alg@ == "sha-384"@ ==> r@ == b64_text(sha384(encode_utf8(disclosure_b64@))),
        alg@ == "sha-512"@ ==> r@ == b64_text(sha512(encode_utf8(disclosure_b64@))),
{
    proof {
        lemma_alg_names();
    }
    if same_text(alg, "sha-384") {
        b64(sha384_of(disclosure_b64.as_bytes()).as_slice())
    } else if same_text(alg, "sha-512") {
        b64(sha512_of(disclosure_b64.as_bytes()).as_slice())
    } else {
        hash_disclosure_sha256(disclosure_b64)
    }
}

proof fn lemma_alg_names()
    ensures
        "sha-256"@ != "sha-384"@,
        "sha-256"@ != "sha-512"@,
        "sha-384"@ != "sha-512"@,
{
    reveal_strlit("sha-256");
    reveal_strlit("sha-384");
    reveal_strlit("sha-512");
    assert("sha-256"@[4] != "sha-384"@[4]);
    assert("sha-256"@[4] != "sha-512"@[4]);
    assert("sha-384"@[4] != "sha-512"@[4]);
}

/// The claims in the payload of an unsigned JWT.
pub fn parse_unsigned_jwt(jwt: &str) -> (r: Result<JsonMap, DisclosureError>)
    ensures
        match r {
            Ok(claims) => jwt_claims(jwt@) == Ok::<Map<Seq<char>, JsonTree>, DisclosureFault>(
                claims@,
            ),
            Err(e) => jwt_claims(jwt@) == Err::<Map<Seq<char>, JsonTree>, DisclosureFault>(e@),
        },
{
    let segments: Vec<String> = split(jwt, '.');
    assert(segments@.len() == texts(segments@).len());
    if segments.len() < 2 {
        return Err(DisclosureError::Crypto("JWT missing payload".to_owned()));
    }
    if segments.len() > 3 {
        return Err(DisclosureError::Crypto("JWT has too many segments".to_owned()));
    }
    assert(texts(segments@)[1] == segments@[1]@);
    let bytes: Vec<u8> = match b64d(segments[1].as_str()) {
        Ok(bytes) => bytes,
        Err(e) => {
            return Err(e);
        },
    };
    match Json::read(bytes.as_slice()) {
        Err(e) => Err(DisclosureError::Crypto(concat2("decode JWT payload: ", e.as_str()))),
        Ok(Json::Object(claims)) => Ok(claims),
        Ok(_) => Err(DisclosureError::Crypto("JWT payload not an object".to_owned())),
    }
}

/// The claim that the JSON of a disclosure says.
pub fn claim_of(t: &Json) -> (r: Result<(String, Json), DisclosureError>)
    ensures
        match r {
            Ok(c) => disclosed_claim(t@) == Ok::<(Seq<char>, JsonTree), DisclosureFault>(
                (c.0@, c.1@),
            ),
            Err(e) => disclosed_claim(t@) == Err::<(Seq<char>, JsonTree), DisclosureFault>(e@),
        },
{
    let items = match t.as_array() {
        Some(items) => items,
        None => {
            return Err(DisclosureError::Crypto("disclosure not an array".to_owned()));
        },
    };
    if items.len() != 3 {
        let n: String = decimal_text(items.len() as u64);
        return Err(
            DisclosureError::Crypto(concat3("disclosure length ", n.as_str(), " (want 3)")),
        );
    }
    assert(trees(items@)[1] == items@[1]@);
    assert(trees(items@)[2] == items@[2]@);
    match items[1].as_str() {
        Some(name) => Ok((name.to_owned(), items[2].clone())),
        None => Err(DisclosureError::Crypto("disclosure[1] not string".to_owned())),
    }
}

/// Whether the commitment `computed` to the disclosure `d` is among those
/// committed to; otherwise an error that says so.
pub fn check_committed(committed: &Vec<String>, computed: &str, d: &str) -> (r: Result<
    (),
    DisclosureError,
>)
    ensures
        match r {
            Ok(_) => texts(committed@).contains(computed@),
            Err(e) => {
                &&& !texts(committed@).contains(computed@)
                &&& e@ == not_committed(d@)
                &&& e@ == DisclosureFault::Crypto("disclosure not committed in _sd: "@ + d@)
            },
        },
{
    if holds(committed, computed) {
        Ok(())
    } else {
        Err(DisclosureError::Crypto(concat2("disclosure not committed in _sd: ", d)))
    }
}

/// The claim that the disclosure `d` opens, if it is committed to.
fn open_disclosure(alg: &str, committed: &Vec<String>, d: &str) -> (r: Result<
    (String, Json),
    DisclosureError,
>)
    requires
        supported(alg@),
    ensures
        match r {
            Ok(c) => opened(alg@, texts(committed@), d@) == Ok::<
                (Seq<char>, JsonTree),
                DisclosureFault,
            >((c.0@, c.1@)),
            Err(e) => opened(alg@, texts(committed@), d@) == Err::<
                (Seq<char>, JsonTree),
                DisclosureFault,
            >(e@),
        },
{
    let computed: String = hash_disclosure(alg, d);
    match check_committed(committed, computed.as_str(), d) {
        Ok(_) => {},
        Err(e) => {
            return Err(e);
        },
    }
    let raw: Vec<u8> = match b64d(d) {
        Ok(raw) => raw,
        Err(e) => {
            return Err(e);
        },
    };
    match Json::read(raw.as_slice()) {
        Ok(t) => claim_of(&t),
        Err(e) => Err(DisclosureError::Crypto(concat2("disclosure not JSON: ", e.as_str()))),
    }
}

/// The error for a hash algorithm that is not supported.
pub fn unsupported(alg: &str) -> (e: DisclosureError)
    ensures
        e@ == unsupported_alg(alg@),
        e@ == DisclosureFault::Unsupported(
            "hash alg "@ + alg@ + " (only 'sha-256' supported in v0.1)"@,
        ),
{
    DisclosureError::Unsupported(
        concat3("hash alg ", alg, " (only 'sha-256' supported in v0.1)"),
    )
}

/// The claims that a JWT with the claims `claims` and those of `parts` from the
/// second on that are not empty show.
pub fn show(claims: JsonMap, parts: &Vec<String>) -> (r: Result<JsonMap, DisclosureError>)
    requires
        parts@.len() >= 1,
    ensures
        match r {
            Ok(m) => shown_claims(claims@, non_empty(texts(parts@).skip(1))) == Ok::<
                Map<Seq<char>, JsonTree>,
                DisclosureFault,
            >(m@),
            Err(e) => shown_claims(claims@, non_empty(texts(parts@).skip(1))) == Err::<
                Map<Seq<char>, JsonTree>,
                DisclosureFault,
            >(e@),
        },
{
    let mut payload: JsonMap = claims;
    let ghost said = payload@;
    let ghost all = texts(parts@).skip(1);
    let alg: String = match payload.get_str("_sd_alg") {
        Some(alg) => alg.to_owned(),
        None => "sha-256".to_owned(),
    };
    if !is_supported(alg.as_str()) {
        return Err(unsupported(alg.as_str()));
    }
    let committed: Vec<String> = match payload.remove("_sd") {
        Some(Json::Array(items)) => texts_of(&items),
        _ => Vec::new(),
    };
    assert(texts(committed@) =~= text_list(JsonTree::Object(said), "_sd"@));
    let _ = payload.remove("_sd_alg");
    let ghost base = payload@;
    let mut i: usize = 1;
    assert(all.take(0) =~= Seq::<Seq<char>>::empty());
    while i < parts.len()
        invariant
            1 <= i <= parts@.len(),
            all == texts(parts@).skip(1),
            with_opened(alg@, base, texts(committed@), non_empty(all.take(i - 1))) == Ok::<
                Map<Seq<char>, JsonTree>,
                DisclosureFault,
            >(payload@),
            named_alg(said) == alg@,
            supported(alg@),
            base == said.remove("_sd"@).remove("_sd_alg"@),
            texts(committed@) == text_list(JsonTree::Object(said), "_sd"@),
            said == claims@,
        decreases parts@.len() - i,
    {
        let d: &str = parts[i].as_str();
        let ghost before = non_empty(all.take(i - 1));
        proof {
            assert(all[i - 1] == d@);
            assert(all.take(i as int).drop_last() =~= all.take(i - 1));
        }
        if !d.is_empty() {
            let ghost now = non_empty(all.take(i as int));
            assert(now == before.push(d@));
            assert(now.drop_last() =~= before);
            match open_disclosure(alg.as_str(), &committed, d) {
                Ok((name, value)) => {
                    payload.insert(name, value);
                },
                Err(e) => {
                    proof {
                        lemma_first_fault(alg@, base, texts(committed@), all, i as int, e@);
                    }
                    return Err(e);
                },
            }
        }
        i = i + 1;
    }
    assert(all.take(i - 1) =~= all);
    Ok(payload)
}

/// A disclosure that does not open spoils all that come after it.
proof fn lemma_first_fault(
    alg: Seq<char>,
    base: Map<Seq<char>, JsonTree>,
    committed: Seq<Seq<char>>,
    all: Seq<Seq<char>>,
    n: int,
    f: DisclosureFault,
)
    requires
        0 <= n <= all.len(),
        with_opened(alg, base, committed, non_empty(all.take(n))) == Err::<
            Map<Seq<char>, JsonTree>,
            DisclosureFault,
        >(f),
    ensures
        with_opened(alg, base, committed, non_empty(all)) == Err::<
            Map<Seq<char>, JsonTree>,
            DisclosureFault,
        >(f),
    decreases all.len() - n,
{
    if n < all.len() {
        let now = non_empty(all.take(n + 1));
        assert(all.take(n + 1).drop_last() =~= all.take(n));
        assert(all.take(n + 1).last() == all[n]);
        if all[n].len() > 0 {
            assert(now.drop_last() =~= non_empty(all.take(n)));
        }
        lemma_first_fault(alg, base, committed, all, n + 1, f);
    } else {
        assert(all.take(n) =~= all);
    }
}

/// `text` without the `~` at its end.
fn without_tilde(text: &str) -> (r: String)
    ensures
        r@ == if text@.len() > 0 && text@.last() == '~' {
            text@.drop_last()
        } else {
            text@
        },
{
    let n: usize = text.unicode_len();
    if n > 0 && text.get_char(n - 1) == '~' {
        text.substring_char(0, n - 1).to_owned()
    } else {
        text.to_owned()
    }
}

/// The claims that the text of an envelope shows.
pub fn verify_text(text: &str) -> (r: Result<JsonMap, DisclosureError>)
    ensures
        match r {
            Ok(m) => text_verified(text@) == Ok::<Map<Seq<char>, JsonTree>, DisclosureFault>(m@),
            Err(e) => text_verified(text@) == Err::<Map<Seq<char>, JsonTree>, DisclosureFault>(e@),
        },
{
    let body: String = without_tilde(text);
    let parts: Vec<String> = split(body.as_str(), '~');
    assert(texts(parts@)[0] == parts@[0]@);
    match parse_unsigned_jwt(parts[0].as_str()) {
        Ok(claims) => show(claims, &parts),
        Err(e) => Err(e),
    }
}

// --------------------------------------------------------------- laws

/// Disclosures are hashed by SHA-256, SHA-384 and SHA-512, and by nothing else.
/// The commitment to a disclosure of any length is the base64url text of the digest
/// of all of its UTF-8 bytes.
pub proof fn law_commitment_hashes_all_of_the_disclosure(alg: Seq<char>, d: Seq<char>)
    ensures
        supported(alg) <==> (alg == "sha-256"@ || alg == "sha-384"@ || alg == "sha-512"@),
        commitment("sha-256"@, d) == b64_text(sha256(encode_utf8(d))),
        commitment("sha-384"@, d) == b64_text(sha384(encode_utf8(d))),
        commitment("sha-512"@, d) == b64_text(sha512(encode_utf8(d))),
{
    lemma_alg_names();
}

/// Whether the list of commitments in `claims` has the text `c`.
pub open spec fn lists_commitment(claims: Map<Seq<char>, JsonTree>, c: Seq<char>) -> bool {
    &&& claims.dom().contains("_sd"@)
    &&& claims["_sd"@] is Array
    &&& exists|j: int|
        0 <= j < claims["_sd"@]->Array_0.len() && #[trigger] claims["_sd"@]->Array_0[j]
            == JsonTree::Text(c)
}

/// Whether `claims` name the algorithm `alg`.
pub open spec fn names_alg(claims: Map<Seq<char>, JsonTree>, alg: Seq<char>) -> bool {
    claims.dom().contains("_sd_alg"@) && claims["_sd_alg"@] == JsonTree::Text(alg)
}

/// Whether `claims` name no algorithm.
pub open spec fn names_no_alg(claims: Map<Seq<char>, JsonTree>) -> bool {
    !claims.dom().contains("_sd_alg"@) || !(claims["_sd_alg"@] is Text)
}

/// Whether `claims` list the digest of all of the disclosure `d`, by the algorithm
/// that they name; by SHA-256 where they name none.
pub open spec fn commits_to(claims: Map<Seq<char>, JsonTree>, d: Seq<char>) -> bool {
    ||| (names_no_alg(claims) || names_alg(claims, "sha-256"@)) && lists_commitment(
        claims,
        b64_text(sha256(encode_utf8(d))),
    )
    ||| names_alg(claims, "sha-384"@) && lists_commitment(
        claims,
        b64_text(sha384(encode_utf8(d))),
    )
    ||| names_alg(claims, "sha-512"@) && lists_commitment(
        claims,
        b64_text(sha512(encode_utf8(d))),
    )
}

proof fn lemma_listed_texts(items: Seq<JsonTree>, c: Seq<char>)
    ensures
        text_items(items).contains(c) <==> exists|j: int|
            0 <= j < items.len() && #[trigger] items[j] == JsonTree::Text(c),
    decreases items.len(),
{
    if items.len() > 0 {
        let less = items.drop_last();
        let n = items.len() - 1;
        lemma_listed_texts(less, c);
        let before = text_items(less);
        let now = text_items(items);
        if now.contains(c) {
            let k = choose|k: int| 0 <= k < now.len() && now[k] == c;
            if k < before.len() {
                assert(before[k] == c);
                assert(before.contains(c));
                let j = choose|j: int|
                    0 <= j < less.len() && #[trigger] less[j] == JsonTree::Text(c);
                assert(items[j] == JsonTree::Text(c));
            } else {
                assert(items[n] == JsonTree::Text(c));
            }
        }
        if exists|j: int| 0 <= j < items.len() && #[trigger] items[j] == JsonTree::Text(c) {
            let j = choose|j: int|
                0 <= j < items.len() && #[trigger] items[j] == JsonTree::Text(c);
            if j < n {
                assert(less[j] == JsonTree::Text(c));
                let k = choose|k: int| 0 <= k < before.len() && before[k] == c;
                assert(now[k] == c);
            } else {
                assert(now[now.len() - 1] == c);
            }
        }
    }
}

proof fn lemma_commits_to(claims: Map<Seq<char>, JsonTree>, d: Seq<char>)
    requires
        supported(named_alg(claims)),
    ensures
        commits_to(claims, d) <==> text_list(JsonTree::Object(claims), "_sd"@).contains(
            commitment(named_alg(claims), d),
        ),
{
    lemma_alg_names();
    let c = commitment(named_alg(claims), d);
    if claims.dom().contains("_sd"@) && claims["_sd"@] is Array {
        lemma_listed_texts(claims["_sd"@]->Array_0, c);
    }
    assert(lists_commitment(claims, c) <==> text_list(
        JsonTree::Object(claims),
        "_sd"@,
    ).contains(c));
}

/// Claims that name another algorithm than SHA-256, SHA-384 or SHA-512 show nothing,
/// with any disclosures, and the error names the algorithm. Without disclosures all
/// other claims show what they are, but for the two reserved names.
pub proof fn law_claims_without_disclosures(
    claims: Map<Seq<char>, JsonTree>,
    ds: Seq<Seq<char>>,
    alg: Seq<char>,
)
    ensures
        names_alg(claims, alg) && alg != "sha-256"@ && alg != "sha-384"@ && alg != "sha-512"@
            ==> shown_claims(claims, ds) == Err::<Map<Seq<char>, JsonTree>, DisclosureFault>(
            DisclosureFault::Unsupported(
                "hash alg "@ + alg + " (only 'sha-256' supported in v0.1)"@,
            ),
        ),
        (names_no_alg(claims) || names_alg(claims, "sha-256"@) || names_alg(claims, "sha-384"@)
            || names_alg(claims, "sha-512"@)) ==> {
            let shown = shown_claims(claims, seq![]);
            &&& shown is Ok
            &&& forall|name: Seq<char>| #[trigger]
                shown->Ok_0.dom().contains(name) <==> claims.dom().contains(name) && name != "_sd"@
                    && name != "_sd_alg"@
            &&& forall|name: Seq<char>| #[trigger]
                shown->Ok_0.dom().contains(name) ==> shown->Ok_0[name] == claims[name]
        },
{
}

/// One disclosure more: what was wrong before stays wrong; a disclosure that the
/// claims do not commit to is refused by name; one that they commit to is read as
/// base64url, then as JSON, then as an array of three whose second item is the name
/// of a claim and whose third is its value, and the claim is added; and at each of
/// these steps an error says what is wrong.
pub proof fn law_one_disclosure_more(
    claims: Map<Seq<char>, JsonTree>,
    ds: Seq<Seq<char>>,
    d: Seq<char>,
)
    ensures
        ({
            let before = shown_claims(claims, ds);
            let now = shown_claims(claims, ds.push(d));
            let wrong = |message: Seq<char>|
                Err::<Map<Seq<char>, JsonTree>, DisclosureFault>(DisclosureFault::Crypto(message));
            if before is Err {
                now == before
            } else if !commits_to(claims, d) {
                now == wrong("disclosure not committed in _sd: "@ + d)
            } else {
                match b64_read(d) {
                    Err(e) => now == wrong("base64url decode: "@ + e),
                    Ok(bytes) => match json_read(bytes) {
                        Err(e) => now == wrong("disclosure not JSON: "@ + e),
                        Ok(JsonTree::Array(items)) => if items.len() != 3 {
                            now == wrong(
                                "disclosure length "@ + decimal(items.len()) + " (want 3)"@,
                            )
                        } else {
                            match items[1] {
                                JsonTree::Text(name) => now == Ok::<
                                    Map<Seq<char>, JsonTree>,
                                    DisclosureFault,
                                >(before->Ok_0.insert(name, items[2])),
                                _ => now == wrong("disclosure[1] not string"@),
                            }
                        },
                        Ok(_) => now == wrong("disclosure not an array"@),
                    },
                }
            }
        }),
{
    assert(ds.push(d).drop_last() =~= ds);
    if supported(named_alg(claims)) {
        lemma_commits_to(claims, d);
    }
}

/// Claims are shown only if every disclosure is committed to: if its digest, over all
/// of its bytes and by the algorithm that the claims name, is in their list.
pub proof fn law_only_committed_disclosures_are_accepted(
    claims: Map<Seq<char>, JsonTree>,
    ds: Seq<Seq<char>>,
    i: int,
)
    requires
        shown_claims(claims, ds) is Ok,
        0 <= i < ds.len(),
    ensures
        commits_to(claims, ds[i]),
        shown_claims(claims, ds.take(i)) is Ok,
    decreases ds.len(),
{
    let less = ds.drop_last();
    assert(less.push(ds.last()) =~= ds);
    law_one_disclosure_more(claims, less, ds.last());
    if i < ds.len() - 1 {
        assert(less[i] == ds[i]);
        assert(less.take(i) =~= ds.take(i));
        law_only_committed_disclosures_are_accepted(claims, less, i);
    } else {
        assert(ds.take(i) =~= less);
    }
}

/// Of a list of texts the empty ones are left out, and the others stay in their order.
pub proof fn law_empty_texts_are_left_out(list: Seq<Seq<char>>, t: Seq<char>)
    ensures
        non_empty(seq![]) == Seq::<Seq<char>>::empty(),
        non_empty(list.push(t)) == if t.len() == 0 {
            non_empty(list)
        } else {
            non_empty(list).push(t)
        },
{
    assert(list.push(t).drop_last() =~= list);
}

/// An envelope is read part by part. A `~` at its end says nothing; what follows
/// another `~` is one more disclosure, exactly as it stands there; and neither
/// changes the part that is the JWT, which is all of a text without `~`.
pub proof fn law_envelope_is_read_part_by_part(
    text: Seq<char>,
    jwt: Seq<char>,
    d: Seq<char>,
)
    requires
        !jwt.contains('~'),
        !d.contains('~'),
        d.len() > 0,
    ensures
        envelope_parts(jwt)[0] == jwt,
        presented(jwt) == Seq::<Seq<char>>::empty(),
        envelope_parts(text + seq!['~'])[0] == envelope_parts(text)[0],
        presented(text + seq!['~']) == presented(text),
        envelope_parts(text + seq!['~'] + d)[0] == envelope_parts(text)[0],
        presented(text + seq!['~'] + d) == presented(text).push(d),
{
    let none = Seq::<char>::empty();
    let ended = text + seq!['~'];
    let more = text + seq!['~'] + d;
    lemma_one_piece(jwt, '~');
    if jwt.len() > 0 {
        assert(jwt[jwt.len() - 1] != '~');
    }
    assert(seq![jwt].skip(1) =~= Seq::<Seq<char>>::empty());
    assert(ended.drop_last() =~= text);
    lemma_one_more_piece(text, '~', d);
    assert(d[d.len() - 1] != '~');
    assert(more.last() == d.last());
    law_pieces_make_up_the_text(text, '~');
    let parts = pieces(text, '~');
    if text.len() > 0 && text.last() == '~' {
        let less = text.drop_last();
        assert(less + seq!['~'] + none =~= text);
        lemma_one_more_piece(less, '~', none);
        law_pieces_make_up_the_text(less, '~');
        let fewer = pieces(less, '~');
        assert(fewer.push(none).skip(1) =~= fewer.skip(1).push(none));
        law_empty_texts_are_left_out(fewer.skip(1), none);
    }
    assert(parts.push(d).skip(1) =~= parts.skip(1).push(d));
    law_empty_texts_are_left_out(parts.skip(1), d);
}

/// What an envelope shows is what its JWT shows with its disclosures.
pub proof fn law_envelope_shows_what_its_jwt_says(text: Seq<char>)
    ensures
        match jwt_claims(envelope_parts(text)[0]) {
            Ok(claims) => text_verified(text) == shown_claims(claims, presented(text)),
            Err(f) => text_verified(text) == Err::<Map<Seq<char>, JsonTree>, DisclosureFault>(f),
        },
{
}

/// The claims of a JWT are read from its second segment, with a third segment and
/// without one: as base64url, then as a JSON object; and at each of these steps an
/// error says what is wrong.
pub proof fn law_claims_are_read_from_the_second_segment(
    header: Seq<char>,
    body: Seq<char>,
    signature: Seq<char>,
)
    requires
        !header.contains('.'),
        !body.contains('.'),
        !signature.contains('.'),
    ensures
        jwt_claims(header + seq!['.'] + body + seq!['.'] + signature) == jwt_claims(
            header + seq!['.'] + body,
        ),
        ({
            let read = jwt_claims(header + seq!['.'] + body);
            let wrong = |message: Seq<char>|
                Err::<Map<Seq<char>, JsonTree>, DisclosureFault>(DisclosureFault::Crypto(message));
            match b64_read(body) {
                Err(e) => read == wrong("base64url decode: "@ + e),
                Ok(bytes) => match json_read(bytes) {
                    Err(e) => read == wrong("decode JWT payload: "@ + e),
                    Ok(JsonTree::Object(claims)) => read == Ok::<
                        Map<Seq<char>, JsonTree>,
                        DisclosureFault,
                    >(claims),
                    Ok(_) => read == wrong("JWT payload not an object"@),
                },
            }
        }),
{
    lemma_one_piece(header, '.');
    lemma_one_more_piece(header, '.', body);
    lemma_one_more_piece(header + seq!['.'] + body, '.', signature);
    assert(pieces(header + seq!['.'] + body, '.')[1] == body);
    assert(pieces(header + seq!['.'] + body + seq!['.'] + signature, '.')[1] == body);
}

proof fn lemma_pieces_grow(s: Seq<char>, sep: char, t: Seq<char>)
    ensures
        pieces(s + t, sep).len() >= pieces(s, sep).len(),
    decreases t.len(),
{
    if t.len() == 0 {
        assert(s + t =~= s);
    } else {
        lemma_pieces_grow(s, sep, t.drop_last());
        law_pieces_make_up_the_text(s + t.drop_last(), sep);
        assert((s + t).drop_last() =~= s + t.drop_last());
    }
}

/// A JWT without a dot has no payload, and one with three dots or more has too many
/// segments.
pub proof fn law_jwt_has_two_or_three_segments(
    lone: Seq<char>,
    a: Seq<char>,
    b: Seq<char>,
    c: Seq<char>,
    rest: Seq<char>,
)
    requires
        !lone.contains('.'),
        !a.contains('.'),
        !b.contains('.'),
        !c.contains('.'),
    ensures
        jwt_claims(lone) == Err::<Map<Seq<char>, JsonTree>, DisclosureFault>(
            DisclosureFault::Crypto("JWT missing payload"@),
        ),
        jwt_claims(a + seq!['.'] + b + seq!['.'] + c + seq!['.'] + rest) == Err::<
            Map<Seq<char>, JsonTree>,
            DisclosureFault,
        >(DisclosureFault::Crypto("JWT has too many segments"@)),
{
    let none = Seq::<char>::empty();
    let three = a + seq!['.'] + b + seq!['.'] + c;
    lemma_one_piece(lone, '.');
    lemma_one_piece(a, '.');
    lemma_one_more_piece(a, '.', b);
    lemma_one_more_piece(a + seq!['.'] + b, '.', c);
    lemma_one_more_piece(three, '.', none);
    assert(three + seq!['.'] + none =~= three + seq!['.']);
    lemma_pieces_grow(three + seq!['.'], '.', rest);
}

/// An envelope is accepted only under its scheme and as UTF-8, only with a JWT whose
/// claims can be read, and only if these claims commit to every disclosure in it.
pub proof fn law_verified_envelope_is_committed_to(
    scheme: Seq<char>,
    bytes: Seq<u8>,
    i: int,
)
    requires
        verified(scheme, bytes) is Ok,
    ensures
        scheme == "sd-jwt"@,
        valid_utf8(bytes),
        ({
            let text = decode_utf8(bytes);
            let claims = jwt_claims(envelope_parts(text)[0]);
            &&& claims is Ok
            &&& 0 <= i < presented(text).len() ==> commits_to(claims->Ok_0, presented(text)[i])
        }),
{
    let text = decode_utf8(bytes);
    let claims = jwt_claims(envelope_parts(text)[0]);
    if 0 <= i < presented(text).len() {
        law_only_committed_disclosures_are_accepted(claims->Ok_0, presented(text), i);
    }
}

/// Bytes under the scheme show, as an object, what their text shows; another scheme
/// is not supported, and what is no UTF-8 is reported.
pub proof fn law_envelope_is_verified_as_text(scheme: Seq<char>, text: Seq<char>, bytes: Seq<u8>)
    ensures
        scheme != "sd-jwt"@ ==> verified(scheme, bytes) == Err::<JsonTree, DisclosureFault>(
            DisclosureFault::Unsupported(scheme),
        ),
        !valid_utf8(bytes) ==> verified("sd-jwt"@, bytes) == Err::<JsonTree, DisclosureFault>(
            DisclosureFault::Crypto("envelope utf-8: "@ + utf8_fault(bytes)),
        ),
        match text_verified(text) {
            Ok(claims) => verified("sd-jwt"@, encode_utf8(text)) == Ok::<JsonTree, DisclosureFault>(
                JsonTree::Object(claims),
            ),
            Err(f) => verified("sd-jwt"@, encode_utf8(text)) == Err::<JsonTree, DisclosureFault>(f),
        },
{
    encode_utf8_valid_utf8(text);
    encode_utf8_decode_utf8(text);
}

} // verus!
