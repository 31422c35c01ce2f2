//! [`DppSelectiveDisclosure`]: claims under selective disclosure.
//!
//! A policy points to the claims that are visible; every other claim of the
//! payload is hidden behind a commitment, and goes along as a disclosure of its
//! own. Whoever passes the envelope on can leave disclosures out.

use vstd::prelude::*;
use vstd::string::*;
use vstd::utf8::encode_utf8;
use crate::config::DppConfig;
use crate::envelope::{
    b64, commitment, commits_to, disclosed_claim, envelope_parts, hash_disclosure, is_supported, jwt_claims,
    law_commitment_hashes_all_of_the_disclosure, named_alg, non_empty, opened, presented, shown_claims, supported, unsupported, unsupported_alg,
    verified, verify_text, with_opened,
};
use crate::json::{
    lemma_text_items, text_list, text_trees, texts_to_json, trees, Json, JsonMap, JsonTree,
};
use crate::order::{in_order, lemma_in_order, lists, name_before};
use crate::outside::{
    b64_char, b64_read, b64_text, fresh_salt, json_read, json_text, read_utf8, reads_back,
    sha256, sha384, sha512, NESTING_LIMIT,
};
use crate::receipt::{
    DisclosedEnvelope, DisclosureError, DisclosureFault, DisclosureId, DisclosurePolicy,
};
use crate::text::{
    chars_of, concat2, holds, lemma_one_more_piece, lemma_one_piece, pieces, same_text,
    strip_prefix, texts,
};

verus! {

broadcast use vstd::string::group_string_axioms;

// ------------------------------------------ what an envelope is made of

/// What a token of a JSON Pointer says: `~1` stands for `/`, and `~0` for `~`.
pub open spec fn unescaped(token: Seq<char>) -> Seq<char>
    decreases token.len(),
{
    if token.len() == 0 {
        seq![]
    } else if token.len() >= 2 && token[0] == '~' && token[1] == '1' {
        seq!['/'] + unescaped(token.skip(2))
    } else if token.len() >= 2 && token[0] == '~' && token[1] == '0' {
        seq!['~'] + unescaped(token.skip(2))
    } else {
        seq![token[0]] + unescaped(token.skip(1))
    }
}

/// The name of the claim that the JSON Pointer `path` leads to (RFC 6901). Only
/// pointers to claims at the top are supported.
pub open spec fn pointed_claim(path: Seq<char>) -> Result<Seq<char>, DisclosureFault> {
    if path.len() == 0 || path[0] != '/' {
        Err(DisclosureFault::UnknownPath(path + ": must start with '/'"@))
    } else if path.len() == 1 || path.skip(1).contains('/') {
        Err(
            DisclosureFault::Unsupported(
                path + ": only top-level JSON Pointers supported in v0.1"@,
            ),
        )
    } else {
        Ok(unescaped(path.skip(1)))
    }
}

/// The names of the claims that `paths` lead to, if all of them lead to one of
/// `claims`; otherwise what is wrong with the first that does not.
pub open spec fn visible_names(
    claims: Map<Seq<char>, JsonTree>,
    paths: Seq<Seq<char>>,
) -> Result<Set<Seq<char>>, DisclosureFault>
    decreases paths.len(),
{
    if paths.len() == 0 {
        Ok(Set::<Seq<char>>::empty())
    } else {
        match visible_names(claims, paths.drop_last()) {
            Err(f) => Err(f),
            Ok(names) => match pointed_claim(paths.last()) {
                Err(f) => Err(f),
                Ok(name) => if claims.dom().contains(name) {
                    Ok(names.insert(name))
                } else {
                    Err(DisclosureFault::UnknownPath(paths.last()))
                },
            },
        }
    }
}

/// The names of the hidden claims, in ascending order.
pub open spec fn hidden_names(
    claims: Map<Seq<char>, JsonTree>,
    visible: Set<Seq<char>>,
) -> Seq<Seq<char>> {
    in_order(claims.dom().difference(visible))
}

/// The JSON of the disclosure of a claim.
pub open spec fn disclosure_tree(salt: Seq<u8>, name: Seq<char>, value: JsonTree) -> JsonTree {
    JsonTree::Array(seq![JsonTree::Text(b64_text(salt)), JsonTree::Text(name), value])
}

/// The disclosure of a claim.
pub open spec fn disclosure(salt: Seq<u8>, name: Seq<char>, value: JsonTree) -> Seq<char> {
    b64_text(json_text(disclosure_tree(salt, name, value)))
}

/// The disclosures of the claims `names`, salted one by one.
pub open spec fn disclosures(
    claims: Map<Seq<char>, JsonTree>,
    names: Seq<Seq<char>>,
    salts: Seq<Seq<u8>>,
) -> Seq<Seq<char>> {
    Seq::new(names.len(), |i: int| disclosure(salts[i], names[i], claims[names[i]]))
}

/// The commitments to the disclosures `ds`, by the algorithm `alg`.
pub open spec fn commitments(alg: Seq<char>, ds: Seq<Seq<char>>) -> Seq<Seq<char>> {
    Seq::new(ds.len(), |i: int| commitment(alg, ds[i]))
}

/// The claims in the payload of a JWT with the commitments `sd`: the visible ones
/// as they are, and the commitments, if there are any.
pub open spec fn committed_payload(
    claims: Map<Seq<char>, JsonTree>,
    visible: Set<Seq<char>>,
    hash_alg: Seq<char>,
    sd: Seq<Seq<char>>,
) -> Map<Seq<char>, JsonTree> {
    let shown = claims.restrict(visible);
    if sd.len() == 0 {
        shown
    } else {
        shown.insert("_sd"@, JsonTree::Array(text_trees(sd))).insert(
            "_sd_alg"@,
            JsonTree::Text(hash_alg),
        )
    }
}

/// The claims in the payload of the JWT: the visible ones as they are, and
/// commitments to the disclosures of the others, if there are any.
pub open spec fn jwt_payload(
    claims: Map<Seq<char>, JsonTree>,
    visible: Set<Seq<char>>,
    hash_alg: Seq<char>,
    ds: Seq<Seq<char>>,
) -> Map<Seq<char>, JsonTree> {
    committed_payload(claims, visible, hash_alg, commitments(hash_alg, ds))
}

/// The header of the JWT.
pub open spec fn jwt_header(jws_alg: Seq<char>) -> JsonTree {
    JsonTree::Object(
        Map::<Seq<char>, JsonTree>::empty().insert("alg"@, JsonTree::Text(jws_alg)).insert(
            "typ"@,
            JsonTree::Text("vc+sd-jwt"@),
        ),
    )
}

/// The JWT with the given header and payload and an empty signature.
pub open spec fn unsigned_jwt(header: JsonTree, payload: JsonTree) -> Seq<char> {
    b64_text(json_text(header)) + seq!['.'] + b64_text(json_text(payload)) + seq!['.']
}

/// `jwt` with the disclosures `ds`, each after a `~`.
pub open spec fn chained(jwt: Seq<char>, ds: Seq<Seq<char>>) -> Seq<char>
    decreases ds.len(),
{
    if ds.len() == 0 {
        jwt
    } else {
        chained(jwt, ds.drop_last()) + seq!['~'] + ds.last()
    }
}

/// The text of the envelope of `jwt` and the disclosures `ds`.
pub open spec fn envelope_text(jwt: Seq<char>, ds: Seq<Seq<char>>) -> Seq<char> {
    chained(jwt, ds).push('~')
}

/// Why a payload cannot be disclosed, if it cannot. The salts have no part in it.
pub open spec fn refused(
    hash_alg: Seq<char>,
    payload: JsonTree,
    paths: Seq<Seq<char>>,
) -> Option<DisclosureFault> {
    match payload {
        JsonTree::Object(claims) => match visible_names(claims, paths) {
            Err(f) => Some(f),
            Ok(visible) => if hidden_names(claims, visible).len() > 0 && !supported(hash_alg) {
                Some(unsupported_alg(hash_alg))
            } else {
                None
            },
        },
        _ => Some(DisclosureFault::Unsupported("payload must be a JSON object"@)),
    }
}

/// How a payload is disclosed: the JWT and the disclosures.
pub open spec fn disclosed(
    hash_alg: Seq<char>,
    jws_alg: Seq<char>,
    payload: JsonTree,
    paths: Seq<Seq<char>>,
    salts: Seq<Seq<u8>>,
) -> Result<(Seq<char>, Seq<Seq<char>>), DisclosureFault> {
    match refused(hash_alg, payload, paths) {
        Some(f) => Err(f),
        None => {
            let claims = payload->Object_0;
            let visible = visible_names(claims, paths)->Ok_0;
            let ds = disclosures(claims, hidden_names(claims, visible), salts);
            let shown = JsonTree::Object(jwt_payload(claims, visible, hash_alg, ds));
            Ok((unsigned_jwt(jwt_header(jws_alg), shown), ds))
        },
    }
}

// -------------------------------------------------------- making one

fn contains_slash(s: &str) -> (r: bool)
    ensures
        r == s@.contains('/'),
{
    for c in it: s.chars()
        invariant
            it.seq() == s@,
            forall|j: int| 0 <= j < it.index() ==> #[trigger] s@[j] != '/',
    {
        if c == '/' {
            assert(s@[it.index()] == '/');
            return true;
        }
    }
    false
}

/// What a token of a JSON Pointer says.
fn unescape(token: &str) -> (r: String)
    ensures
        r@ == unescaped(token@),
{
    let all: Vec<char> = chars_of(token);
    let mut r: String = String::new();
    let mut i: usize = 0;
    assert(all@.skip(0) =~= all@);
    assert(r@ + unescaped(all@.skip(0)) =~= unescaped(all@));
    while i < all.len()
        invariant
            i <= all@.len(),
            all@ == token@,
            r@ + unescaped(all@.skip(i as int)) == unescaped(all@),
        decreases all@.len() - i,
    {
        let ghost before = r@;
        let ghost rest = all@.skip(i as int);
        let c: char = all[i];
        if c == '~' && i + 1 < all.len() && (all[i + 1] == '0' || all[i + 1] == '1') {
            let said: char = if all[i + 1] == '1' {
                '/'
            } else {
                '~'
            };
            r.push(said);
            i = i + 2;
            assert(rest.skip(2) =~= all@.skip(i as int));
            assert(before + (seq![said] + unescaped(rest.skip(2))) =~= r@ + unescaped(
                rest.skip(2),
            ));
        } else {
            r.push(c);
            i = i + 1;
            assert(rest.skip(1) =~= all@.skip(i as int));
            assert(before + (seq![c] + unescaped(rest.skip(1))) =~= r@ + unescaped(rest.skip(1)));
        }
    }
    assert(r@ + unescaped(all@.skip(i as int)) =~= r@);
    r
}

/// The name of the claim that `path` leads to.
pub fn pointer_to_claim(path: &str) -> (r: Result<String, DisclosureError>)
    ensures
        match r {
            Ok(name) => pointed_claim(path@) == Ok::<Seq<char>, DisclosureFault>(name@),
            Err(e) => pointed_claim(path@) == Err::<Seq<char>, DisclosureFault>(e@),
        },
{
    proof {
        reveal_strlit("/");
    }
    match strip_prefix(path, "/") {
        None => {
            proof {
                if path@.len() > 0 && path@[0] == '/' {
                    assert("/"@.is_prefix_of(path@)) by {
                        assert("/"@ =~= path@.subrange(0, 1));
                    }
                }
            }
            Err(DisclosureError::UnknownPath(concat2(path, ": must start with '/'")))
        },
        Some(tail) => {
            assert(path@.skip(1) =~= tail@);
            if tail.as_str().is_empty() || contains_slash(tail.as_str()) {
                Err(
                    DisclosureError::Unsupported(
                        concat2(path, ": only top-level JSON Pointers supported in v0.1"),
                    ),
                )
            } else {
                Ok(unescape(tail.as_str()))
            }
        },
    }
}

/// A path that leads nowhere spoils all that come after it.
proof fn lemma_first_bad_path(
    claims: Map<Seq<char>, JsonTree>,
    paths: Seq<Seq<char>>,
    n: int,
    f: DisclosureFault,
)
    requires
        0 <= n <= paths.len(),
        visible_names(claims, paths.take(n)) == Err::<Set<Seq<char>>, DisclosureFault>(f),
    ensures
        visible_names(claims, paths) == Err::<Set<Seq<char>>, DisclosureFault>(f),
    decreases paths.len() - n,
{
    if n < paths.len() {
        assert(paths.take(n + 1).drop_last() =~= paths.take(n));
        lemma_first_bad_path(claims, paths, n + 1, f);
    } else {
        assert(paths.take(n) =~= paths);
    }
}

/// The names of the claims that `paths` lead to.
fn resolve(claims: &JsonMap, paths: &Vec<String>) -> (r: Result<Vec<String>, DisclosureError>)
    ensures
        match r {
            Ok(names) => visible_names(claims@, texts(paths@)) == Ok::<
                Set<Seq<char>>,
                DisclosureFault,
            >(texts(names@).to_set()),
            Err(e) => visible_names(claims@, texts(paths@)) == Err::<
                Set<Seq<char>>,
                DisclosureFault,
            >(e@),
        },
{
    let ghost all = texts(paths@);
    let mut names: Vec<String> = Vec::new();
    let mut i: usize = 0;
    assert(texts(names@).to_set() =~= Set::<Seq<char>>::empty());
    while i < paths.len()
        invariant
            i <= paths@.len(),
            all == texts(paths@),
            visible_names(claims@, all.take(i as int)) == Ok::<Set<Seq<char>>, DisclosureFault>(
                texts(names@).to_set(),
            ),
        decreases paths@.len() - i,
    {
        let ghost before = texts(names@);
        proof {
            assert(all.take(i + 1).drop_last() =~= all.take(i as int));
            assert(all.take(i + 1).last() == paths@[i as int]@);
        }
        match pointer_to_claim(paths[i].as_str()) {
            Err(e) => {
                proof {
                    lemma_first_bad_path(claims@, all, i + 1, e@);
                }
                return Err(e);
            },
            Ok(name) => {
                if claims.get(name.as_str()).is_none() {
                    let e = DisclosureError::UnknownPath(paths[i].clone());
                    proof {
                        lemma_first_bad_path(claims@, all, i + 1, e@);
                    }
                    return Err(e);
                }
                names.push(name);
                proof {
                    assert(texts(names@) =~= before.push(name@));
                    before.lemma_push_to_set_commute(name@);
                }
            },
        }
        i = i + 1;
    }
    assert(all.take(i as int) =~= all);
    Ok(names)
}

/// Whether `d` is spelt like a disclosure: characters of base64url, and not none.
pub open spec fn spelt_like_disclosure(d: Seq<char>) -> bool {
    &&& d.len() > 0
    &&& forall|i: int| 0 <= i < d.len() ==> b64_char(#[trigger] d[i])
}

/// Whether the text `d` says the JSON `t` in base64url.
pub open spec fn reads_as(d: Seq<char>, t: JsonTree) -> bool {
    &&& b64_read(d) is Ok
    &&& json_read(b64_read(d)->Ok_0) == Ok::<JsonTree, Seq<char>>(t)
}

/// Whether the disclosure `d`, committed to, opens to the claim.
pub open spec fn opens_to(d: Seq<char>, name: Seq<char>, value: JsonTree) -> bool {
    &&& b64_read(d) is Ok
    &&& json_read(b64_read(d)->Ok_0) is Ok
    &&& disclosed_claim(json_read(b64_read(d)->Ok_0)->Ok_0) == Ok::<
        (Seq<char>, JsonTree),
        DisclosureFault,
    >((name, value))
}

/// Whether reading the text of `salt` gives the salt back.
pub open spec fn salt_reads_back(salt: Seq<u8>) -> bool {
    b64_read(b64_text(salt)) == Ok::<Seq<u8>, Seq<char>>(salt)
}

/// The disclosure of a claim. It reads back as the array that it was made of.
pub fn make_disclosure(salt: &[u8; 16], claim_name: &str, value: &Json) -> (r: Result<
    String,
    DisclosureError,
>)
    ensures
        r is Ok,
        r->Ok_0@ == disclosure(salt@, claim_name@, value@),
        r->Ok_0@ == b64_text(
            json_text(
                JsonTree::Array(
                    seq![JsonTree::Text(b64_text(salt@)), JsonTree::Text(claim_name@), value@],
                ),
            ),
        ),
        spelt_like_disclosure(r->Ok_0@),
        salt_reads_back(salt@),
        b64_text(salt@).len() == 22,
        reads_back(value@, (NESTING_LIMIT - 1) as nat) ==> reads_as(
            r->Ok_0@,
            disclosure_tree(salt@, claim_name@, value@),
        ),
{
    let mut items: Vec<Json> = Vec::new();
    items.push(Json::Text(b64(salt.as_slice())));
    items.push(Json::text(claim_name));
    items.push(value.clone());
    let ghost said = disclosure_tree(salt@, claim_name@, value@);
    assert(trees(items@) =~= said->Array_0);
    proof {
        if reads_back(value@, (NESTING_LIMIT - 1) as nat) {
            assert forall|i: int| 0 <= i < said->Array_0.len() implies reads_back(
                #[trigger] said->Array_0[i],
                (NESTING_LIMIT - 1) as nat,
            ) by {
                if i != 2 {
                    assert(said->Array_0[i] is Text);
                }
            }
            assert(reads_back(said, NESTING_LIMIT as nat));
        }
    }
    match Json::Array(items).write() {
        Ok(json) => Ok(b64(json.as_slice())),
        Err(e) => Err(DisclosureError::Crypto(concat2("encode disclosure: ", e.as_str()))),
    }
}

/// Whether `jwt` is spelt like a JWT: characters of base64url, and dots.
pub open spec fn spelt_like_jwt(jwt: Seq<char>) -> bool {
    forall|i: int| 0 <= i < jwt.len() ==> b64_char(#[trigger] jwt[i]) || jwt[i] == '.'
}

/// Whether `jwt` has three segments, of which the last, the signature, is empty.
pub open spec fn unsigned(jwt: Seq<char>) -> bool {
    let segments = pieces(jwt, '.');
    &&& segments.len() == 3
    &&& forall|i: int| 0 <= i < segments[0].len() ==> b64_char(#[trigger] segments[0][i])
    &&& forall|i: int| 0 <= i < segments[1].len() ==> b64_char(#[trigger] segments[1][i])
    &&& segments[2].len() == 0
}

/// The unsigned JWT with the claims `payload`.
fn make_jwt(jws_alg: &str, payload: JsonMap) -> (r: Result<String, DisclosureError>)
    ensures
        r is Ok,
        r->Ok_0@ == unsigned_jwt(jwt_header(jws_alg@), JsonTree::Object(payload@)),
        spelt_like_jwt(r->Ok_0@),
        unsigned(r->Ok_0@),
        reads_back(JsonTree::Object(payload@), NESTING_LIMIT as nat) ==> jwt_claims(r->Ok_0@)
            == Ok::<Map<Seq<char>, JsonTree>, DisclosureFault>(payload@),
{
    let mut header: JsonMap = JsonMap::new();
    header.insert("alg".to_owned(), Json::text(jws_alg));
    header.insert("typ".to_owned(), Json::text("vc+sd-jwt"));
    let ghost claims = payload@;
    let header_bytes: Vec<u8> = match Json::Object(header).write() {
        Ok(bytes) => bytes,
        Err(e) => {
            return Err(DisclosureError::Crypto(concat2("encode header: ", e.as_str())));
        },
    };
    let payload_bytes: Vec<u8> = match Json::Object(payload).write() {
        Ok(bytes) => bytes,
        Err(e) => {
            return Err(DisclosureError::Crypto(concat2("encode payload: ", e.as_str())));
        },
    };
    let head: String = b64(header_bytes.as_slice());
    let body: String = b64(payload_bytes.as_slice());
    let mut jwt: String = head.clone();
    jwt.push('.');
    jwt.append(body.as_str());
    // The signature is empty.
    jwt.push('.');
    proof {
        assert(jwt@ =~= head@ + seq!['.'] + body@ + seq!['.']);
        assert(!head@.contains('.'));
        assert(!body@.contains('.'));
        let empty = Seq::<char>::empty();
        lemma_one_piece(head@, '.');
        lemma_one_more_piece(head@, '.', body@);
        lemma_one_more_piece(head@ + seq!['.'] + body@, '.', empty);
        assert(head@ + seq!['.'] + body@ + seq!['.'] + empty =~= jwt@);
        assert(pieces(jwt@, '.') =~= seq![head@, body@, empty]);
    }
    Ok(jwt)
}

/// The text of the envelope of `jwt` and the disclosures `ds`.
pub fn frame(jwt: String, ds: &Vec<String>) -> (r: String)
    ensures
        r@ == envelope_text(jwt@, texts(ds@)),
{
    let ghost all = texts(ds@);
    let ghost start = jwt@;
    let mut envelope: String = jwt;
    let mut i: usize = 0;
    assert(all.take(0) =~= Seq::<Seq<char>>::empty());
    while i < ds.len()
        invariant
            i <= ds@.len(),
            all == texts(ds@),
            envelope@ == chained(start, all.take(i as int)),
        decreases ds@.len() - i,
    {
        let ghost before = envelope@;
        envelope.push('~');
        envelope.append(ds[i].as_str());
        i = i + 1;
        proof {
            assert(all.take(i as int).drop_last() =~= all.take(i - 1));
            assert(all.take(i as int).last() == ds@[i - 1]@);
            assert(envelope@ =~= before + seq!['~'] + ds@[i - 1]@);
        }
    }
    assert(all.take(i as int) =~= all);
    envelope.push('~');
    envelope
}

/// The claims named in `visible`.
fn visible_part(claims: &JsonMap, visible: &Vec<String>) -> (r: JsonMap)
    ensures
        r@ == claims@.restrict(texts(visible@).to_set()),
{
    let ghost names = in_order(claims@.dom());
    let ghost seen = texts(visible@).to_set();
    let mut r: JsonMap = JsonMap::new();
    let n: usize = claims.len();
    let mut i: usize = 0;
    while i < n
        invariant
            n == names.len(),
            names == in_order(claims@.dom()),
            seen == texts(visible@).to_set(),
            i <= n,
            forall|k: Seq<char>| #[trigger]
                r@.dom().contains(k) ==> claims@.dom().contains(k) && seen.contains(k) && r@[k]
                    == claims@[k],
            forall|j: int|
                0 <= j < i && seen.contains(#[trigger] names[j]) ==> r@.dom().contains(names[j]),
        decreases n - i,
    {
        let name: &str = claims.name_at(i);
        if holds(visible, name) {
            r.insert(name.to_owned(), claims.value_at(i).clone());
        }
        i = i + 1;
    }
    proof {
        let want = claims@.restrict(seen);
        assert forall|k: Seq<char>| #[trigger] want.dom().contains(k) implies r@.dom().contains(
            k,
        ) by {
            assert(claims@.dom().contains(k));
            assert(names.contains(k));
        }
        assert(r@ =~= want);
    }
    r
}

/// The claims in the payload of a JWT with the commitments `sd_hashes`.
pub fn payload_with(
    claims: &JsonMap,
    visible: &Vec<String>,
    hash_alg: &str,
    sd_hashes: &Vec<String>,
) -> (r: JsonMap)
    ensures
        r@ == committed_payload(
            claims@,
            texts(visible@).to_set(),
            hash_alg@,
            texts(sd_hashes@),
        ),
{
    let mut r: JsonMap = visible_part(claims, visible);
    if sd_hashes.len() > 0 {
        r.insert("_sd".to_owned(), texts_to_json(sd_hashes));
        r.insert("_sd_alg".to_owned(), Json::text(hash_alg));
    }
    r
}

/// The positions, among the claims, of those not named in `visible`.
fn hidden_positions(claims: &JsonMap, visible: &Vec<String>) -> (r: Vec<usize>)
    ensures
        lists(
            hidden_names(claims@, texts(visible@).to_set()),
            claims@.dom().difference(texts(visible@).to_set()),
        ),
        r@.len() == hidden_names(claims@, texts(visible@).to_set()).len(),
        forall|i: int|
            0 <= i < r@.len() ==> (#[trigger] r@[i]) < in_order(claims@.dom()).len() && in_order(
                claims@.dom(),
            )[r@[i] as int] == hidden_names(claims@, texts(visible@).to_set())[i],
{
    let ghost names = in_order(claims@.dom());
    let ghost seen = texts(visible@).to_set();
    let ghost hidden = claims@.dom().difference(seen);
    let mut r: Vec<usize> = Vec::new();
    let n: usize = claims.len();
    let mut i: usize = 0;
    while i < n
        invariant
            n == names.len(),
            names == in_order(claims@.dom()),
            lists(names, claims@.dom()),
            seen == texts(visible@).to_set(),
            i <= n,
            forall|j: int| 0 <= j < r@.len() ==> (#[trigger] r@[j]) < i && !seen.contains(
                names[r@[j] as int],
            ),
            forall|j: int, k: int| 0 <= j < k < r@.len() ==> r@[j] < r@[k],
            forall|j: int|
                0 <= j < i && !seen.contains(#[trigger] names[j]) ==> r@.contains(j as usize),
        decreases n - i,
    {
        let ghost before = r@;
        let name: &str = claims.name_at(i);
        if !holds(visible, name) {
            r.push(i);
            proof {
                assert(r@[r@.len() - 1] == i);
                assert forall|j: int| 0 <= j < i + 1 && !seen.contains(#[trigger] names[j]) implies r@.contains(
                    j as usize,
                ) by {
                    if j < i {
                        let k = choose|k: int| 0 <= k < before.len() && before[k] == j as usize;
                        assert(r@[k] == j as usize);
                    }
                }
            }
        }
        i = i + 1;
    }
    proof {
        let listed = Seq::new(r@.len(), |j: int| names[r@[j] as int]);
        assert forall|j: int, k: int| 0 <= j < k < listed.len() implies #[trigger] name_before(
            listed[j],
            listed[k],
        ) by {
            assert(r@[j] < r@[k]);
            assert(name_before(names[r@[j] as int], names[r@[k] as int]));
        }
        assert forall|name: Seq<char>| #[trigger] hidden.contains(name) <==> listed.contains(
            name,
        ) by {
            if hidden.contains(name) {
                assert(claims@.dom().contains(name));
                let j = choose|j: int| 0 <= j < names.len() && names[j] == name;
                assert(r@.contains(j as usize));
                let k = choose|k: int| 0 <= k < r@.len() && r@[k] == j as usize;
                assert(listed[k] == name);
            }
            if listed.contains(name) {
                let k = choose|k: int| 0 <= k < listed.len() && listed[k] == name;
                assert(r@[k] < i);
                assert(names.contains(names[r@[k] as int]));
                assert(claims@.dom().contains(name));
            }
        }
        assert(lists(listed, hidden));
        lemma_in_order(listed, hidden);
        assert forall|j: int| 0 <= j < r@.len() implies (#[trigger] r@[j]) < names.len()
            && names[r@[j] as int] == hidden_names(claims@, seen)[j] by {
            assert(listed[j] == names[r@[j] as int]);
        }
    }
    r
}

// --------------------------------------------------------- round trip

/// Whether `jwt` and the disclosures `ds` are a disclosure of `claims`: the JWT
/// reads as its payload, and each disclosure as the hidden claim it belongs to.
pub open spec fn well_made(
    alg: Seq<char>,
    jwt: Seq<char>,
    ds: Seq<Seq<char>>,
    claims: Map<Seq<char>, JsonTree>,
    visible: Set<Seq<char>>,
) -> bool {
    let hidden = hidden_names(claims, visible);
    &&& lists(hidden, claims.dom().difference(visible))
    &&& spelt_like_jwt(jwt)
    &&& jwt_claims(jwt) == Ok::<Map<Seq<char>, JsonTree>, DisclosureFault>(
        jwt_payload(claims, visible, alg, ds),
    )
    &&& ds.len() > 0 ==> supported(alg)
    &&& ds.len() == hidden.len()
    &&& forall|i: int|
        0 <= i < ds.len() ==> spelt_like_disclosure(#[trigger] ds[i]) && opens_to(
            ds[i],
            hidden[i],
            claims[hidden[i]],
        )
}

/// The names of claims that an envelope uses for itself.
pub open spec fn reserved(name: Seq<char>) -> bool {
    name == "_sd"@ || name == "_sd_alg"@
}

/// Whether no name among `names` is one that an envelope uses for itself.
pub open spec fn none_reserved(names: Set<Seq<char>>) -> bool {
    forall|name: Seq<char>| #[trigger] names.contains(name) ==> !reserved(name)
}

/// Whether `picks` are positions in a list of length `n`.
pub open spec fn positions(picks: Seq<int>, n: nat) -> bool {
    forall|j: int| 0 <= j < picks.len() ==> 0 <= #[trigger] picks[j] < n
}

/// What stands in `list` at the positions `picks`.
pub open spec fn picked(list: Seq<Seq<char>>, picks: Seq<int>) -> Seq<Seq<char>> {
    Seq::new(picks.len(), |j: int| list[picks[j]])
}

/// The visible claims, and the hidden ones at the positions `picks`.
pub open spec fn shown_with(
    claims: Map<Seq<char>, JsonTree>,
    visible: Set<Seq<char>>,
    picks: Seq<int>,
) -> Map<Seq<char>, JsonTree> {
    claims.restrict(visible.union(picked(hidden_names(claims, visible), picks).to_set()))
}

proof fn lemma_chained_pieces(jwt: Seq<char>, ds: Seq<Seq<char>>)
    requires
        !jwt.contains('~'),
        forall|i: int| 0 <= i < ds.len() ==> !(#[trigger] ds[i]).contains('~'),
    ensures
        pieces(chained(jwt, ds), '~') == seq![jwt] + ds,
    decreases ds.len(),
{
    if ds.len() == 0 {
        lemma_one_piece(jwt, '~');
        assert(seq![jwt] + ds =~= seq![jwt]);
    } else {
        let less = ds.drop_last();
        assert forall|i: int| 0 <= i < less.len() implies !(#[trigger] less[i]).contains('~') by {
            assert(less[i] == ds[i]);
        }
        lemma_chained_pieces(jwt, less);
        assert(!ds[ds.len() - 1].contains('~'));
        lemma_one_more_piece(chained(jwt, less), '~', ds.last());
        assert((seq![jwt] + less).push(ds.last()) =~= seq![jwt] + ds);
    }
}

proof fn lemma_non_empty(list: Seq<Seq<char>>)
    requires
        forall|i: int| 0 <= i < list.len() ==> (#[trigger] list[i]).len() > 0,
    ensures
        non_empty(list) == list,
    decreases list.len(),
{
    if list.len() == 0 {
        assert(list =~= seq![]);
    } else {
        assert forall|i: int| 0 <= i < list.drop_last().len() implies (#[trigger] list.drop_last()[i]).len()
            > 0 by {
            assert(list.drop_last()[i] == list[i]);
        }
        lemma_non_empty(list.drop_last());
        assert(list[list.len() - 1].len() > 0);
        assert(list.drop_last().push(list.last()) =~= list);
    }
}

proof fn lemma_reserved_names()
    ensures
        "_sd"@ != "_sd_alg"@,
{
    reveal_strlit("_sd");
    reveal_strlit("_sd_alg");
    assert("_sd"@.len() != "_sd_alg"@.len());
}

/// Opening the disclosures at the positions `picks` shows the claims there.
proof fn lemma_opened(
    alg: Seq<char>,
    jwt: Seq<char>,
    ds: Seq<Seq<char>>,
    claims: Map<Seq<char>, JsonTree>,
    visible: Set<Seq<char>>,
    picks: Seq<int>,
)
    requires
        well_made(alg, jwt, ds, claims, visible),
        positions(picks, ds.len()),
    ensures
        with_opened(alg, claims.restrict(visible), commitments(alg, ds), picked(ds, picks)) == Ok::<
            Map<Seq<char>, JsonTree>,
            DisclosureFault,
        >(shown_with(claims, visible, picks)),
    decreases picks.len(),
{
    let hidden = hidden_names(claims, visible);
    let base = claims.restrict(visible);
    let now = shown_with(claims, visible, picks);
    if picks.len() == 0 {
        assert(picked(hidden, picks).to_set() =~= Set::<Seq<char>>::empty());
        assert(visible.union(Set::<Seq<char>>::empty()) =~= visible);
    } else {
        let less = picks.drop_last();
        let p = picks.last();
        assert forall|j: int| 0 <= j < less.len() implies 0 <= #[trigger] less[j] < ds.len() by {
            assert(less[j] == picks[j]);
        }
        assert(0 <= picks[picks.len() - 1] < ds.len());
        lemma_opened(alg, jwt, ds, claims, visible, less);
        assert(picked(ds, picks).drop_last() =~= picked(ds, less));
        assert(picked(ds, picks).last() == ds[p]);
        assert(spelt_like_disclosure(ds[p]));
        let sd = commitments(alg, ds);
        assert(sd[p] == commitment(alg, ds[p]));
        assert(sd.contains(commitment(alg, ds[p])));
        assert(opened(alg, sd, ds[p]) == Ok::<(Seq<char>, JsonTree), DisclosureFault>(
            (hidden[p], claims[hidden[p]]),
        ));
        assert(hidden.contains(hidden[p]));
        assert(claims.dom().difference(visible).contains(hidden[p]));
        let before = shown_with(claims, visible, less);
        let was = picked(hidden, less);
        let is = picked(hidden, picks);
        assert(is =~= was.push(hidden[p]));
        was.lemma_push_to_set_commute(hidden[p]);
        assert(before.insert(hidden[p], claims[hidden[p]]) =~= now);
    }
}

/// A verifier who gets the JWT and some of the disclosures, in any order, sees
/// the visible claims and those that were disclosed, and nothing else.
pub proof fn law_presented_claims_are_shown(
    alg: Seq<char>,
    jwt: Seq<char>,
    ds: Seq<Seq<char>>,
    claims: Map<Seq<char>, JsonTree>,
    visible: Set<Seq<char>>,
    picks: Seq<int>,
)
    requires
        well_made(alg, jwt, ds, claims, visible),
        none_reserved(visible),
        positions(picks, ds.len()),
    ensures
        verified("sd-jwt"@, encode_utf8(envelope_text(jwt, picked(ds, picks)))) == Ok::<
            JsonTree,
            DisclosureFault,
        >(JsonTree::Object(shown_with(claims, visible, picks))),
{
    let shown = picked(ds, picks);
    let text = envelope_text(jwt, shown);
    vstd::utf8::encode_utf8_valid_utf8(text);
    vstd::utf8::encode_utf8_decode_utf8(text);
    assert(text.drop_last() =~= chained(jwt, shown));
    assert(!jwt.contains('~'));
    assert forall|i: int| 0 <= i < shown.len() implies !(#[trigger] shown[i]).contains('~')
        && shown[i].len() > 0 by {
        assert(shown[i] == ds[picks[i]]);
        assert(spelt_like_disclosure(ds[picks[i]]));
    }
    lemma_chained_pieces(jwt, shown);
    let parts = pieces(chained(jwt, shown), '~');
    assert(parts[0] == jwt);
    assert(parts.skip(1) =~= shown);
    lemma_non_empty(shown);
    lemma_reserved_names();
    lemma_text_items(commitments(alg, ds));
    let payload = jwt_payload(claims, visible, alg, ds);
    let base = claims.restrict(visible);
    assert(!base.dom().contains("_sd"@)) by {
        assert(reserved("_sd"@));
    }
    assert(!base.dom().contains("_sd_alg"@)) by {
        assert(reserved("_sd_alg"@));
    }
    assert(payload.remove("_sd"@).remove("_sd_alg"@) =~= base);
    assert(text_list(JsonTree::Object(payload), "_sd"@) =~= commitments(alg, ds));
    lemma_opened(alg, jwt, ds, claims, visible, picks);
    if ds.len() > 0 {
        assert(named_alg(payload) == alg);
    } else {
        assert(named_alg(payload) == "sha-256"@);
        assert(picks.len() == 0) by {
            if picks.len() > 0 {
                assert(0 <= picks[0] < ds.len());
            }
        }
    }
}

/// A verifier who gets the JWT and all disclosures sees all claims.
pub proof fn law_whole_envelope_shows_all(
    alg: Seq<char>,
    jwt: Seq<char>,
    ds: Seq<Seq<char>>,
    claims: Map<Seq<char>, JsonTree>,
    visible: Set<Seq<char>>,
)
    requires
        well_made(alg, jwt, ds, claims, visible),
        none_reserved(visible),
    ensures
        verified("sd-jwt"@, encode_utf8(envelope_text(jwt, ds))) == Ok::<JsonTree, DisclosureFault>(
            JsonTree::Object(claims),
        ),
{
    let hidden = hidden_names(claims, visible);
    let every = Seq::new(ds.len(), |i: int| i);
    law_presented_claims_are_shown(alg, jwt, ds, claims, visible, every);
    assert(picked(ds, every) =~= ds);
    assert(picked(hidden, every) =~= hidden);
    assert forall|name: Seq<char>| claims.dom().contains(name) implies #[trigger] visible.union(
        hidden.to_set(),
    ).contains(name) by {
        if !visible.contains(name) {
            assert(claims.dom().difference(visible).contains(name));
            assert(hidden.contains(name));
        }
    }
    assert(shown_with(claims, visible, every) =~= claims);
}

proof fn lemma_opened_are_committed(
    alg: Seq<char>,
    claims: Map<Seq<char>, JsonTree>,
    committed: Seq<Seq<char>>,
    ds: Seq<Seq<char>>,
    i: int,
)
    requires
        with_opened(alg, claims, committed, ds) is Ok,
        0 <= i < ds.len(),
    ensures
        committed.contains(commitment(alg, ds[i])),
    decreases ds.len(),
{
    if i < ds.len() - 1 {
        lemma_opened_are_committed(alg, claims, committed, ds.drop_last(), i);
    }
}

/// An envelope is refused if one of its disclosures is not committed to in `_sd`
/// of its JWT.
pub proof fn law_uncommitted_disclosure_is_refused(
    text: Seq<char>,
    claims: Map<Seq<char>, JsonTree>,
    i: int,
)
    requires
        jwt_claims(envelope_parts(text)[0]) == Ok::<Map<Seq<char>, JsonTree>, DisclosureFault>(
            claims,
        ),
        0 <= i < presented(text).len(),
        !text_list(JsonTree::Object(claims), "_sd"@).contains(
            commitment(named_alg(claims), presented(text)[i]),
        ),
    ensures
        verified("sd-jwt"@, encode_utf8(text)) is Err,
{
    vstd::utf8::encode_utf8_valid_utf8(text);
    vstd::utf8::encode_utf8_decode_utf8(text);
    if shown_claims(claims, presented(text)) is Ok {
        lemma_opened_are_committed(
            named_alg(claims),
            claims.remove("_sd"@).remove("_sd_alg"@),
            text_list(JsonTree::Object(claims), "_sd"@),
            presented(text),
            i,
        );
    }
}

/// Where a policy is accepted, each of its pointers leads to a claim, and that
/// claim is visible.
pub proof fn law_every_path_is_visible(
    claims: Map<Seq<char>, JsonTree>,
    paths: Seq<Seq<char>>,
    i: int,
)
    requires
        visible_names(claims, paths) is Ok,
        0 <= i < paths.len(),
    ensures
        pointed_claim(paths[i]) is Ok,
        claims.dom().contains(pointed_claim(paths[i])->Ok_0),
        visible_names(claims, paths)->Ok_0.contains(pointed_claim(paths[i])->Ok_0),
    decreases paths.len(),
{
    if i < paths.len() - 1 {
        law_every_path_is_visible(claims, paths.drop_last(), i);
    }
}

/// Nothing is visible but what a pointer of the policy leads to.
pub proof fn law_only_paths_are_visible(
    claims: Map<Seq<char>, JsonTree>,
    paths: Seq<Seq<char>>,
    name: Seq<char>,
)
    requires
        visible_names(claims, paths) is Ok,
        visible_names(claims, paths)->Ok_0.contains(name),
    ensures
        exists|i: int|
            0 <= i < paths.len() && pointed_claim(#[trigger] paths[i]) == Ok::<
                Seq<char>,
                DisclosureFault,
            >(name),
    decreases paths.len(),
{
    if paths.len() > 0 {
        let less = paths.drop_last();
        if pointed_claim(paths.last()) == Ok::<Seq<char>, DisclosureFault>(name) {
            assert(paths[paths.len() - 1] == paths.last());
        } else {
            law_only_paths_are_visible(claims, less, name);
            let i = choose|i: int|
                0 <= i < less.len() && pointed_claim(#[trigger] less[i]) == Ok::<
                    Seq<char>,
                    DisclosureFault,
                >(name);
            assert(paths[i] == less[i]);
        }
    }
}

proof fn lemma_all_paths_lead(
    claims: Map<Seq<char>, JsonTree>,
    paths: Seq<Seq<char>>,
)
    requires
        forall|i: int|
            0 <= i < paths.len() ==> pointed_claim(#[trigger] paths[i]) is Ok
                && claims.dom().contains(pointed_claim(paths[i])->Ok_0),
    ensures
        visible_names(claims, paths) is Ok,
    decreases paths.len(),
{
    if paths.len() > 0 {
        let less = paths.drop_last();
        assert forall|i: int| 0 <= i < less.len() implies pointed_claim(#[trigger] less[i]) is Ok
            && claims.dom().contains(pointed_claim(less[i])->Ok_0) by {
            assert(less[i] == paths[i]);
        }
        lemma_all_paths_lead(claims, less);
        assert(pointed_claim(paths[paths.len() - 1]) is Ok);
    }
}

proof fn lemma_same_paths_show_the_same(
    claims: Map<Seq<char>, JsonTree>,
    one: Seq<Seq<char>>,
    other: Seq<Seq<char>>,
)
    requires
        visible_names(claims, one) is Ok,
        one.to_set() == other.to_set(),
    ensures
        visible_names(claims, other) == visible_names(claims, one),
{
    assert forall|j: int| 0 <= j < other.len() implies one.contains(#[trigger] other[j]) by {
        assert(other.to_set().contains(other[j]));
    }
    assert forall|i: int| 0 <= i < one.len() implies other.contains(#[trigger] one[i]) by {
        assert(one.to_set().contains(one[i]));
    }
    assert forall|j: int| 0 <= j < other.len() implies pointed_claim(#[trigger] other[j]) is Ok
        && claims.dom().contains(pointed_claim(other[j])->Ok_0) by {
        let i = choose|i: int| 0 <= i < one.len() && one[i] == other[j];
        law_every_path_is_visible(claims, one, i);
    }
    lemma_all_paths_lead(claims, other);
    let a = visible_names(claims, one)->Ok_0;
    let b = visible_names(claims, other)->Ok_0;
    assert forall|name: Seq<char>| a.contains(name) implies b.contains(name) by {
        law_only_paths_are_visible(claims, one, name);
        let i = choose|i: int|
            0 <= i < one.len() && pointed_claim(#[trigger] one[i]) == Ok::<
                Seq<char>,
                DisclosureFault,
            >(name);
        let j = choose|j: int| 0 <= j < other.len() && other[j] == one[i];
        law_every_path_is_visible(claims, other, j);
    }
    assert forall|name: Seq<char>| b.contains(name) implies a.contains(name) by {
        law_only_paths_are_visible(claims, other, name);
        let j = choose|j: int|
            0 <= j < other.len() && pointed_claim(#[trigger] other[j]) == Ok::<
                Seq<char>,
                DisclosureFault,
            >(name);
        let i = choose|i: int| 0 <= i < one.len() && one[i] == other[j];
        law_every_path_is_visible(claims, one, i);
    }
    assert(a =~= b);
}

/// Neither the order of the pointers in a policy matters nor how often one is
/// there: with the same salts a payload is disclosed in the same way. (Of a policy
/// that is refused, the first bad pointer is reported.)
pub proof fn law_order_of_paths_does_not_matter(
    hash_alg: Seq<char>,
    jws_alg: Seq<char>,
    payload: JsonTree,
    one: Seq<Seq<char>>,
    other: Seq<Seq<char>>,
    salts: Seq<Seq<u8>>,
)
    requires
        disclosed(hash_alg, jws_alg, payload, one, salts) is Ok,
        one.to_set() == other.to_set(),
    ensures
        disclosed(hash_alg, jws_alg, payload, other, salts) == disclosed(
            hash_alg,
            jws_alg,
            payload,
            one,
            salts,
        ),
{
    lemma_same_paths_show_the_same(payload->Object_0, one, other);
}

/// The payload of the JWT has the visible claims as they are, and of the hidden
/// ones neither name nor value: under any name but the reserved ones it has what
/// the claims have there if the name is visible, and nothing if it is not.
pub proof fn law_payload_has_the_visible_claims(
    claims: Map<Seq<char>, JsonTree>,
    visible: Set<Seq<char>>,
    hash_alg: Seq<char>,
    ds: Seq<Seq<char>>,
    name: Seq<char>,
)
    requires
        !reserved(name) || ds.len() == 0,
    ensures
        ({
            let payload = jwt_payload(claims, visible, hash_alg, ds);
            &&& payload.dom().contains(name) <==> claims.dom().contains(name) && visible.contains(
                name,
            )
            &&& payload.dom().contains(name) ==> payload[name] == claims[name]
        }),
{
}

/// Every hidden claim is committed to: where there are disclosures, `_sd` lists
/// the commitments to them, in their order, and `_sd_alg` names the algorithm.
pub proof fn law_every_disclosure_is_committed_to(
    claims: Map<Seq<char>, JsonTree>,
    visible: Set<Seq<char>>,
    hash_alg: Seq<char>,
    ds: Seq<Seq<char>>,
)
    requires
        ds.len() > 0,
    ensures
        ({
            let payload = jwt_payload(claims, visible, hash_alg, ds);
            &&& text_list(JsonTree::Object(payload), "_sd"@) == commitments(hash_alg, ds)
            &&& named_alg(payload) == hash_alg
        }),
{
    lemma_reserved_names();
    lemma_text_items(commitments(hash_alg, ds));
}

proof fn lemma_count_in_joined(a: Seq<char>, b: Seq<char>, c: char)
    ensures
        (a + b).to_multiset().count(c) == a.to_multiset().count(c) + b.to_multiset().count(c),
{
    vstd::seq_lib::lemma_multiset_commutative(a, b);
}

proof fn lemma_chained_tildes(jwt: Seq<char>, ds: Seq<Seq<char>>)
    requires
        spelt_like_jwt(jwt),
        forall|i: int| 0 <= i < ds.len() ==> spelt_like_disclosure(#[trigger] ds[i]),
    ensures
        chained(jwt, ds).to_multiset().count('~') == ds.len(),
    decreases ds.len(),
{
    broadcast use vstd::seq_lib::group_to_multiset_ensures;

    if ds.len() == 0 {
        assert(!jwt.contains('~'));
    } else {
        let less = ds.drop_last();
        assert forall|i: int| 0 <= i < less.len() implies spelt_like_disclosure(
            #[trigger] less[i],
        ) by {
            assert(less[i] == ds[i]);
        }
        lemma_chained_tildes(jwt, less);
        let d = ds.last();
        assert(spelt_like_disclosure(ds[ds.len() - 1]));
        assert(!d.contains('~'));
        let one = seq!['~'];
        assert(one =~= Seq::<char>::empty().push('~'));
        lemma_count_in_joined(chained(jwt, less), one, '~');
        lemma_count_in_joined(chained(jwt, less) + one, d, '~');
    }
}

/// An envelope falls apart at its tildes into the JWT and the disclosures, and has
/// one tilde more than disclosures.
pub proof fn law_envelope_splits_at_tildes(jwt: Seq<char>, ds: Seq<Seq<char>>)
    requires
        spelt_like_jwt(jwt),
        forall|i: int| 0 <= i < ds.len() ==> spelt_like_disclosure(#[trigger] ds[i]),
    ensures
        pieces(envelope_text(jwt, ds), '~') == (seq![jwt] + ds).push(Seq::<char>::empty()),
        envelope_text(jwt, ds).to_multiset().count('~') == ds.len() + 1,
        envelope_text(jwt, ds).last() == '~',
{
    broadcast use vstd::seq_lib::group_to_multiset_ensures;

    let text = envelope_text(jwt, ds);
    assert(!jwt.contains('~'));
    assert forall|i: int| 0 <= i < ds.len() implies !(#[trigger] ds[i]).contains('~') by {
        assert(spelt_like_disclosure(ds[i]));
    }
    lemma_chained_pieces(jwt, ds);
    assert(text.drop_last() =~= chained(jwt, ds));
    lemma_chained_tildes(jwt, ds);
}

/// Disclosures with different salts are different texts, whatever the claims in
/// them.
pub proof fn law_salts_tell_disclosures_apart(
    one: Seq<char>,
    other: Seq<char>,
    salts: (Seq<u8>, Seq<u8>),
    names: (Seq<char>, Seq<char>),
    values: (JsonTree, JsonTree),
)
    requires
        reads_as(one, disclosure_tree(salts.0, names.0, values.0)),
        reads_as(other, disclosure_tree(salts.1, names.1, values.1)),
        salt_reads_back(salts.0),
        salt_reads_back(salts.1),
        salts.0 != salts.1,
    ensures
        one != other,
{
    if one == other {
        let a = disclosure_tree(salts.0, names.0, values.0);
        let b = disclosure_tree(salts.1, names.1, values.1);
        assert(a->Array_0[0] == b->Array_0[0]);
        assert(b64_text(salts.0) == b64_text(salts.1));
    }
}

/// Whether, among the disclosures `ds`, those that open claims of one name open
/// the same claim.
pub open spec fn agreeing(
    alg: Seq<char>,
    committed: Seq<Seq<char>>,
    ds: Seq<Seq<char>>,
) -> bool {
    forall|i: int, j: int|
        0 <= i < ds.len() && 0 <= j < ds.len() && opened(alg, committed, #[trigger] ds[i])->Ok_0.0
            == opened(alg, committed, #[trigger] ds[j])->Ok_0.0 ==> opened(alg, committed, ds[i])
            == opened(alg, committed, ds[j])
}

/// Disclosures that all open make up claims: those that were there, but for the
/// names that are opened, and what is opened.
proof fn lemma_with_opened(
    alg: Seq<char>,
    base: Map<Seq<char>, JsonTree>,
    committed: Seq<Seq<char>>,
    ds: Seq<Seq<char>>,
)
    requires
        forall|i: int| 0 <= i < ds.len() ==> opened(alg, committed, #[trigger] ds[i]) is Ok,
    ensures
        with_opened(alg, base, committed, ds) is Ok,
        ({
            let m = with_opened(alg, base, committed, ds)->Ok_0;
            &&& forall|i: int|
                0 <= i < ds.len() ==> m.dom().contains(
                    opened(alg, committed, #[trigger] ds[i])->Ok_0.0,
                )
            &&& base.dom().subset_of(m.dom())
            &&& forall|name: Seq<char>| #[trigger]
                m.dom().contains(name) ==> {
                    ||| exists|i: int|
                        0 <= i < ds.len() && opened(alg, committed, #[trigger] ds[i]) == Ok::<
                            (Seq<char>, JsonTree),
                            DisclosureFault,
                        >((name, m[name]))
                    ||| base.dom().contains(name) && m[name] == base[name] && forall|i: int|
                        0 <= i < ds.len() ==> opened(alg, committed, #[trigger] ds[i])->Ok_0.0
                            != name
                }
        }),
    decreases ds.len(),
{
    if ds.len() > 0 {
        let less = ds.drop_last();
        assert forall|i: int| 0 <= i < less.len() implies opened(
            alg,
            committed,
            #[trigger] less[i],
        ) is Ok by {
            assert(less[i] == ds[i]);
        }
        lemma_with_opened(alg, base, committed, less);
        let was = with_opened(alg, base, committed, less)->Ok_0;
        let n = ds.len() - 1;
        assert(opened(alg, committed, ds[n]) is Ok);
        let m = with_opened(alg, base, committed, ds)->Ok_0;
        assert forall|i: int| 0 <= i < ds.len() implies m.dom().contains(
            opened(alg, committed, #[trigger] ds[i])->Ok_0.0,
        ) by {
            if i < n {
                assert(less[i] == ds[i]);
            }
        }
        assert forall|name: Seq<char>| #[trigger] m.dom().contains(name) implies {
            ||| exists|i: int|
                0 <= i < ds.len() && opened(alg, committed, #[trigger] ds[i]) == Ok::<
                    (Seq<char>, JsonTree),
                    DisclosureFault,
                >((name, m[name]))
            ||| base.dom().contains(name) && m[name] == base[name] && forall|i: int|
                0 <= i < ds.len() ==> opened(alg, committed, #[trigger] ds[i])->Ok_0.0 != name
        } by {
            if opened(alg, committed, ds[n])->Ok_0.0 == name {
                assert(opened(alg, committed, ds[n]) == Ok::<
                    (Seq<char>, JsonTree),
                    DisclosureFault,
                >((name, m[name])));
            } else {
                assert(was.dom().contains(name));
                assert(m[name] == was[name]);
                if exists|i: int|
                    0 <= i < less.len() && opened(alg, committed, #[trigger] less[i]) == Ok::<
                        (Seq<char>, JsonTree),
                        DisclosureFault,
                    >((name, was[name])) {
                    let i = choose|i: int|
                        0 <= i < less.len() && opened(alg, committed, #[trigger] less[i]) == Ok::<
                            (Seq<char>, JsonTree),
                            DisclosureFault,
                        >((name, was[name]));
                    assert(ds[i] == less[i]);
                } else {
                    assert forall|i: int| 0 <= i < ds.len() implies opened(
                        alg,
                        committed,
                        #[trigger] ds[i],
                    )->Ok_0.0 != name by {
                        if i < n {
                            assert(less[i] == ds[i]);
                        }
                    }
                }
            }
        }
    }
}

proof fn lemma_all_open(
    alg: Seq<char>,
    base: Map<Seq<char>, JsonTree>,
    committed: Seq<Seq<char>>,
    ds: Seq<Seq<char>>,
    i: int,
)
    requires
        with_opened(alg, base, committed, ds) is Ok,
        0 <= i < ds.len(),
    ensures
        opened(alg, committed, ds[i]) is Ok,
    decreases ds.len(),
{
    if i < ds.len() - 1 {
        lemma_all_open(alg, base, committed, ds.drop_last(), i);
    }
}

proof fn lemma_same_claim(
    alg: Seq<char>,
    base: Map<Seq<char>, JsonTree>,
    sd: Seq<Seq<char>>,
    one: Seq<Seq<char>>,
    other: Seq<Seq<char>>,
    name: Seq<char>,
)
    requires
        forall|i: int| 0 <= i < one.len() ==> opened(alg, sd, #[trigger] one[i]) is Ok,
        forall|j: int| 0 <= j < other.len() ==> opened(alg, sd, #[trigger] other[j]) is Ok,
        forall|i: int| 0 <= i < one.len() ==> other.contains(#[trigger] one[i]),
        forall|j: int| 0 <= j < other.len() ==> one.contains(#[trigger] other[j]),
        agreeing(alg, sd, one),
    ensures
        ({
            let m = with_opened(alg, base, sd, one)->Ok_0;
            let n = with_opened(alg, base, sd, other)->Ok_0;
            &&& m.dom().contains(name) == n.dom().contains(name)
            &&& m.dom().contains(name) ==> m[name] == n[name]
        }),
{
    lemma_with_opened(alg, base, sd, one);
    lemma_with_opened(alg, base, sd, other);
    let m = with_opened(alg, base, sd, one)->Ok_0;
    let n = with_opened(alg, base, sd, other)->Ok_0;
    if exists|i: int| 0 <= i < one.len() && opened(alg, sd, #[trigger] one[i])->Ok_0.0 == name {
        let i = choose|i: int|
            0 <= i < one.len() && opened(alg, sd, #[trigger] one[i])->Ok_0.0 == name;
        assert(other.contains(one[i]));
        let j = choose|j: int| 0 <= j < other.len() && other[j] == one[i];
        assert(m.dom().contains(opened(alg, sd, one[i])->Ok_0.0));
        assert(n.dom().contains(opened(alg, sd, other[j])->Ok_0.0));
        let p = choose|p: int|
            0 <= p < one.len() && opened(alg, sd, #[trigger] one[p]) == Ok::<
                (Seq<char>, JsonTree),
                DisclosureFault,
            >((name, m[name]));
        let q = choose|q: int|
            0 <= q < other.len() && opened(alg, sd, #[trigger] other[q]) == Ok::<
                (Seq<char>, JsonTree),
                DisclosureFault,
            >((name, n[name]));
        assert(one.contains(other[q]));
        let r = choose|r: int| 0 <= r < one.len() && one[r] == other[q];
        assert(opened(alg, sd, one[p])->Ok_0.0 == opened(alg, sd, one[r])->Ok_0.0);
    } else {
        assert forall|j: int| 0 <= j < other.len() implies opened(
            alg,
            sd,
            #[trigger] other[j],
        )->Ok_0.0 != name by {
            assert(one.contains(other[j]));
            let i = choose|i: int| 0 <= i < one.len() && one[i] == other[j];
            assert(opened(alg, sd, one[i])->Ok_0.0 != name);
        }
    }
}

proof fn lemma_same_disclosures_show_the_same(
    claims: Map<Seq<char>, JsonTree>,
    one: Seq<Seq<char>>,
    other: Seq<Seq<char>>,
)
    requires
        shown_claims(claims, one) is Ok,
        one.to_set() == other.to_set(),
        agreeing(named_alg(claims), text_list(JsonTree::Object(claims), "_sd"@), one),
    ensures
        shown_claims(claims, other) == shown_claims(claims, one),
{
    let alg = named_alg(claims);
    let sd = text_list(JsonTree::Object(claims), "_sd"@);
    let base = claims.remove("_sd"@).remove("_sd_alg"@);
    assert forall|i: int| 0 <= i < one.len() implies opened(alg, sd, #[trigger] one[i]) is Ok by {
        lemma_all_open(alg, base, sd, one, i);
    }
    assert forall|j: int| 0 <= j < other.len() implies one.contains(#[trigger] other[j]) by {
        assert(other.to_set().contains(other[j]));
    }
    assert forall|i: int| 0 <= i < one.len() implies other.contains(#[trigger] one[i]) by {
        assert(one.to_set().contains(one[i]));
    }
    assert forall|j: int| 0 <= j < other.len() implies opened(alg, sd, #[trigger] other[j]) is Ok by {
        assert(one.contains(other[j]));
        let i = choose|i: int| 0 <= i < one.len() && one[i] == other[j];
        assert(opened(alg, sd, one[i]) is Ok);
    }
    lemma_with_opened(alg, base, sd, one);
    lemma_with_opened(alg, base, sd, other);
    let m = with_opened(alg, base, sd, one)->Ok_0;
    let n = with_opened(alg, base, sd, other)->Ok_0;
    assert forall|name: Seq<char>|
        (#[trigger] m.dom().contains(name) <==> n.dom().contains(name)) && (m.dom().contains(name)
            ==> m[name] == n[name]) by {
        lemma_same_claim(alg, base, sd, one, other, name);
    }
    assert(m =~= n);
}

/// Neither the order of the disclosures in an envelope matters nor how often one
/// is there: envelopes of one JWT with the same disclosures show the same.
/// (Disclosures of one name that open different claims are left out: there the
/// last one counts.)
pub proof fn law_order_of_disclosures_does_not_matter(
    one: Seq<char>,
    other: Seq<char>,
    claims: Map<Seq<char>, JsonTree>,
)
    requires
        jwt_claims(envelope_parts(one)[0]) == Ok::<Map<Seq<char>, JsonTree>, DisclosureFault>(
            claims,
        ),
        envelope_parts(other)[0] == envelope_parts(one)[0],
        presented(other).to_set() == presented(one).to_set(),
        verified("sd-jwt"@, encode_utf8(one)) is Ok,
        agreeing(
            named_alg(claims),
            text_list(JsonTree::Object(claims), "_sd"@),
            presented(one),
        ),
    ensures
        verified("sd-jwt"@, encode_utf8(other)) == verified("sd-jwt"@, encode_utf8(one)),
{
    vstd::utf8::encode_utf8_valid_utf8(one);
    vstd::utf8::encode_utf8_decode_utf8(one);
    vstd::utf8::encode_utf8_valid_utf8(other);
    vstd::utf8::encode_utf8_decode_utf8(other);
    lemma_same_disclosures_show_the_same(claims, presented(one), presented(other));
}

/// The payload of the JWT reads back as JSON where the claims do.
proof fn lemma_payload_text(
    claims: Map<Seq<char>, JsonTree>,
    visible: Set<Seq<char>>,
    hash_alg: Seq<char>,
    ds: Seq<Seq<char>>,
)
    requires
        reads_back(JsonTree::Object(claims), NESTING_LIMIT as nat),
    ensures
        reads_back(
            JsonTree::Object(jwt_payload(claims, visible, hash_alg, ds)),
            NESTING_LIMIT as nat,
        ),
{
    let levels = (NESTING_LIMIT - 1) as nat;
    let payload = jwt_payload(claims, visible, hash_alg, ds);
    let listed = text_trees(commitments(hash_alg, ds));
    assert forall|name: Seq<char>| #[trigger] payload.dom().contains(name) implies reads_back(
        payload[name],
        levels,
    ) by {
        if ds.len() > 0 && name == "_sd_alg"@ {
            assert(payload[name] is Text);
        } else if ds.len() > 0 && name == "_sd"@ {
            lemma_reserved_names();
            assert(payload[name] == JsonTree::Array(listed));
            assert forall|i: int| 0 <= i < listed.len() implies reads_back(
                #[trigger] listed[i],
                (levels - 1) as nat,
            ) by {
                assert(listed[i] is Text);
            }
        } else {
            assert(claims.dom().contains(name));
            assert(payload[name] == claims[name]);
            lemma_member_text(claims, name);
        }
    }
}

/// What reads back in an object is each of its members.
proof fn lemma_member_text(claims: Map<Seq<char>, JsonTree>, name: Seq<char>)
    requires
        reads_back(JsonTree::Object(claims), NESTING_LIMIT as nat),
        claims.dom().contains(name),
    ensures
        reads_back(claims[name], (NESTING_LIMIT - 1) as nat),
{
    let whole = JsonTree::Object(claims);
    assert(whole->Object_0.dom().contains(name));
}

/// Whether each of the disclosures `ds` reads back as its salt, and the name and
/// the value of its claim.
pub open spec fn salted_claims(
    ds: Seq<Seq<char>>,
    salts: Seq<Seq<u8>>,
    names: Seq<Seq<char>>,
    claims: Map<Seq<char>, JsonTree>,
) -> bool {
    &&& ds.len() == names.len()
    &&& forall|i: int|
        0 <= i < ds.len() ==> reads_as(
            #[trigger] ds[i],
            disclosure_tree(salts[i], names[i], claims[names[i]]),
        ) && salt_reads_back(salts[i])
}

/// The salts as bytes.
pub open spec fn salt_bytes(salts: Seq<[u8; 16]>) -> Seq<Seq<u8>> {
    salts.map_values(|s: [u8; 16]| s@)
}

proof fn lemma_salted_claims(
    ds: Seq<String>,
    salts: Seq<[u8; 16]>,
    names: Seq<Seq<char>>,
    claims: Map<Seq<char>, JsonTree>,
)
    requires
        ds.len() == names.len() <= salts.len(),
        forall|j: int|
            0 <= j < ds.len() ==> reads_as(
                (#[trigger] ds[j])@,
                disclosure_tree(salts[j]@, names[j], claims[names[j]]),
            ) && salt_reads_back(salts[j]@),
    ensures
        salted_claims(texts(ds), salt_bytes(salts), names, claims),
{
    let said = texts(ds);
    let drawn = salt_bytes(salts);
    assert forall|i: int| 0 <= i < said.len() implies reads_as(
        #[trigger] said[i],
        disclosure_tree(drawn[i], names[i], claims[names[i]]),
    ) && salt_reads_back(drawn[i]) by {
        assert(said[i] == ds[i]@);
        assert(drawn[i] == salts[i]@);
    }
}

/// The disclosures of the claims at the positions `hidden`, with commitments to
/// them.
fn disclose_hidden(
    alg: &str,
    claims: &JsonMap,
    hidden: &Vec<usize>,
    salts: &Vec<[u8; 16]>,
) -> (r: Result<(Vec<String>, Vec<String>), DisclosureError>)
    requires
        hidden@.len() > 0 ==> supported(alg@),
        hidden@.len() <= salts@.len(),
        forall|i: int|
            0 <= i < hidden@.len() ==> (#[trigger] hidden@[i]) < in_order(claims@.dom()).len(),
    ensures
        r is Ok,
        ({
            let names = Seq::new(
                hidden@.len(),
                |i: int| in_order(claims@.dom())[hidden@[i] as int],
            );
            let ds = texts(r->Ok_0.0@);
            &&& ds == disclosures(claims@, names, salt_bytes(salts@))
            &&& texts(r->Ok_0.1@) == commitments(alg@, ds)
            &&& forall|i: int| 0 <= i < ds.len() ==> spelt_like_disclosure(#[trigger] ds[i])
            &&& reads_back(JsonTree::Object(claims@), NESTING_LIMIT as nat) ==> salted_claims(
                ds,
                salt_bytes(salts@),
                names,
                claims@,
            )
        }),
{
    let ghost listed = in_order(claims@.dom());
    let ghost names = Seq::new(hidden@.len(), |i: int| listed[hidden@[i] as int]);
    let mut sd_hashes: Vec<String> = Vec::new();
    let mut ds: Vec<String> = Vec::new();
    let mut i: usize = 0;
    while i < hidden.len()
        invariant
            i <= hidden@.len() <= salts@.len(),
            hidden@.len() > 0 ==> supported(alg@),
            listed == in_order(claims@.dom()),
            names == Seq::new(hidden@.len(), |i: int| listed[hidden@[i] as int]),
            forall|i: int|
                0 <= i < hidden@.len() ==> (#[trigger] hidden@[i]) < listed.len(),
            ds@.len() == i,
            sd_hashes@.len() == i,
            forall|j: int|
                0 <= j < i ==> {
                    &&& (#[trigger] ds@[j])@ == disclosure(
                        salts@[j]@,
                        names[j],
                        claims@[names[j]],
                    )
                    &&& sd_hashes@[j]@ == commitment(alg@, ds@[j]@)
                    &&& spelt_like_disclosure(ds@[j]@)
                    &&& salt_reads_back(salts@[j]@)
                    &&& reads_back(JsonTree::Object(claims@), NESTING_LIMIT as nat) ==> reads_as(
                        ds@[j]@,
                        disclosure_tree(salts@[j]@, names[j], claims@[names[j]]),
                    )
                },
        decreases hidden@.len() - i,
    {
        let at: usize = hidden[i];
        assert(names[i as int] == listed[at as int]);
        let name: &str = claims.name_at(at);
        proof {
            if reads_back(JsonTree::Object(claims@), NESTING_LIMIT as nat) {
                lemma_member_text(claims@, name@);
            }
        }
        match make_disclosure(&salts[i], name, claims.value_at(at)) {
            Ok(d) => {
                sd_hashes.push(hash_disclosure(alg, d.as_str()));
                ds.push(d);
            },
            Err(e) => {
                return Err(e);
            },
        }
        i = i + 1;
    }
    assert(texts(ds@) =~= disclosures(claims@, names, salt_bytes(salts@)));
    assert(texts(sd_hashes@) =~= commitments(alg@, texts(ds@)));
    proof {
        let said = texts(ds@);
        assert forall|i: int| 0 <= i < said.len() implies spelt_like_disclosure(
            #[trigger] said[i],
        ) by {
            assert(said[i] == ds@[i]@);
        }
        if reads_back(JsonTree::Object(claims@), NESTING_LIMIT as nat) {
            lemma_salted_claims(ds@, salts@, names, claims@);
        }
    }
    Ok((ds, sd_hashes))
}

/// How many claims of `payload` the pointers `paths` leave hidden.
pub open spec fn hidden_count(payload: JsonTree, paths: Seq<Seq<char>>) -> nat {
    match payload {
        JsonTree::Object(claims) => match visible_names(claims, paths) {
            Ok(visible) => hidden_names(claims, visible).len(),
            Err(_) => 0,
        },
        _ => 0,
    }
}

/// Whether an envelope shows its payload again: the payload reads back as JSON,
/// and no claim is visible whose name an envelope uses for itself.
pub open spec fn shows_again(payload: JsonTree, paths: Seq<Seq<char>>) -> bool {
    &&& reads_back(payload, NESTING_LIMIT as nat)
    &&& match visible_names(payload->Object_0, paths) {
        Ok(visible) => none_reserved(visible),
        Err(_) => false,
    }
}

// --------------------------------------------------------- the scheme

/// Discloses claims selectively in SD-JWT envelopes.
#[derive(Clone, Debug)]
pub struct DppSelectiveDisclosure {
    id: DisclosureId,
    hash_alg: String,
    jws_alg: String,
}

/// What a [`DppSelectiveDisclosure`] goes by.
pub struct DisclosureView {
    pub id: Seq<char>,
    pub hash_alg: Seq<char>,
    pub jws_alg: Seq<char>,
}

impl View for DppSelectiveDisclosure {
    type V = DisclosureView;

    closed spec fn view(&self) -> DisclosureView {
        DisclosureView { id: self.id.0@, hash_alg: self.hash_alg@, jws_alg: self.jws_alg@ }
    }
}

/// Whether `jwt` and the disclosures `ds` can be told apart in an envelope: the JWT
/// has three segments, neither it nor a disclosure holds a `~`, and the text of the
/// envelope falls apart into them at its tildes.
pub open spec fn framed(jwt: Seq<char>, ds: Seq<Seq<char>>) -> bool {
    &&& spelt_like_jwt(jwt)
    &&& unsigned(jwt)
    &&& forall|i: int| 0 <= i < ds.len() ==> spelt_like_disclosure(#[trigger] ds[i])
    &&& pieces(envelope_text(jwt, ds), '~') == (seq![jwt] + ds).push(Seq::<char>::empty())
}

/// Whether `r` is what disclosing `payload` with the given salts gives.
pub open spec fn envelope_of(
    scheme: DppSelectiveDisclosure,
    payload: JsonTree,
    paths: Seq<Seq<char>>,
    salts: Seq<Seq<u8>>,
    r: Result<DisclosedEnvelope, DisclosureError>,
) -> bool {
    let made = disclosed(scheme@.hash_alg, scheme@.jws_alg, payload, paths, salts);
    match r {
        Err(e) => made == Err::<(Seq<char>, Seq<Seq<char>>), DisclosureFault>(e@),
        Ok(envelope) => {
            &&& made is Ok
            &&& envelope.scheme@ == "sd-jwt"@
            &&& envelope.bytes@ == encode_utf8(envelope_text(made->Ok_0.0, made->Ok_0.1))
            &&& framed(made->Ok_0.0, made->Ok_0.1)
            &&& lists(
                hidden_names(payload->Object_0, visible_names(payload->Object_0, paths)->Ok_0),
                payload->Object_0.dom().difference(
                    visible_names(payload->Object_0, paths)->Ok_0,
                ),
            )
            &&& reads_back(payload, NESTING_LIMIT as nat) ==> salted_claims(
                made->Ok_0.1,
                salts,
                hidden_names(payload->Object_0, visible_names(payload->Object_0, paths)->Ok_0),
                payload->Object_0,
            )
            &&& shows_again(payload, paths) ==> {
                &&& verified(envelope.scheme@, envelope.bytes@) == Ok::<JsonTree, DisclosureFault>(
                    payload,
                )
                &&& shows_picked(
                    made->Ok_0.0,
                    made->Ok_0.1,
                    payload->Object_0,
                    visible_names(payload->Object_0, paths)->Ok_0,
                )
            }
        },
    }
}

/// Whether the payload has the claims `claims`, of which the policy leaves those
/// named in `visible` visible, and hides those at the positions `hidden`.
pub open spec fn planned(
    scheme: DppSelectiveDisclosure,
    payload: JsonTree,
    policy: DisclosurePolicy,
    claims: Map<Seq<char>, JsonTree>,
    visible: Seq<String>,
    hidden: Seq<usize>,
) -> bool {
    let seen = texts(visible).to_set();
    let names = hidden_names(claims, seen);
    &&& payload == JsonTree::Object(claims)
    &&& visible_names(claims, texts(policy.visible@)) == Ok::<Set<Seq<char>>, DisclosureFault>(seen)
    &&& names.len() > 0 ==> supported(scheme@.hash_alg)
    &&& lists(names, claims.dom().difference(seen))
    &&& hidden.len() == names.len()
    &&& forall|i: int|
        0 <= i < hidden.len() ==> (#[trigger] hidden[i]) < in_order(claims.dom()).len() && in_order(
            claims.dom(),
        )[hidden[i] as int] == names[i]
}

/// Whether `salts` are `n` salts of sixteen bytes each.
pub open spec fn salted(salts: Seq<Seq<u8>>, n: nat) -> bool {
    &&& salts.len() == n
    &&& forall|i: int| 0 <= i < salts.len() ==> (#[trigger] salts[i]).len() == 16
}

/// Whether an envelope of `jwt` and any of the disclosures `ds` shows the visible
/// claims and those that were disclosed.
pub open spec fn shows_picked(
    jwt: Seq<char>,
    ds: Seq<Seq<char>>,
    claims: Map<Seq<char>, JsonTree>,
    visible: Set<Seq<char>>,
) -> bool {
    forall|picks: Seq<int>|
        positions(picks, ds.len()) ==> verified(
            "sd-jwt"@,
            encode_utf8(envelope_text(jwt, #[trigger] picked(ds, picks))),
        ) == Ok::<JsonTree, DisclosureFault>(
            JsonTree::Object(shown_with(claims, visible, picks)),
        )
}

impl DppSelectiveDisclosure {
    /// The scheme that `cfg` describes.
    pub fn new(cfg: &DppConfig) -> (r: Self)
        ensures
            r@.id == "prvnz-sd-jwt:"@ + cfg.sd_jwt_hash_alg@,
            r@.hash_alg == cfg.sd_jwt_hash_alg@,
            r@.jws_alg == cfg.sd_jwt_jws_alg@,
    {
        DppSelectiveDisclosure {
            id: DisclosureId(concat2("prvnz-sd-jwt:", cfg.sd_jwt_hash_alg.as_str())),
            hash_alg: cfg.sd_jwt_hash_alg.clone(),
            jws_alg: cfg.sd_jwt_jws_alg.clone(),
        }
    }

    /// The scheme with the given name and algorithms.
    pub fn with_algs(id: &str, hash_alg: &str, jws_alg: &str) -> (r: Self)
        ensures
            r@.id == id@,
            r@.hash_alg == hash_alg@,
            r@.jws_alg == jws_alg@,
    {
        DppSelectiveDisclosure {
            id: DisclosureId(id.to_owned()),
            hash_alg: hash_alg.to_owned(),
            jws_alg: jws_alg.to_owned(),
        }
    }

    /// The name of this scheme.
    pub fn id(&self) -> (r: DisclosureId)
        ensures
            r.0@ == self@.id,
    {
        DisclosureId(self.id.0.clone())
    }

    /// The claims of `payload`, the names of the visible ones, and the positions
    /// of the hidden ones.
    fn plan<'a>(&self, payload: &'a Json, policy: &DisclosurePolicy) -> (r: Result<
        (&'a JsonMap, Vec<String>, Vec<usize>),
        DisclosureError,
    >)
        ensures
            match r {
                Ok((claims, visible, hidden)) => planned(
                    *self,
                    payload@,
                    *policy,
                    claims@,
                    visible@,
                    hidden@,
                ),
                Err(e) => refused(self@.hash_alg, payload@, texts(policy.visible@)) == Some(e@),
            },
    {
        let claims = match payload.as_object() {
            Some(claims) => claims,
            None => {
                return Err(
                    DisclosureError::Unsupported("payload must be a JSON object".to_owned()),
                );
            },
        };
        // Every pointer is resolved first, so that no envelope hides what the
        // policy shows.
        let visible: Vec<String> = match resolve(claims, &policy.visible) {
            Ok(visible) => visible,
            Err(e) => {
                return Err(e);
            },
        };
        let hidden: Vec<usize> = hidden_positions(claims, &visible);
        if hidden.len() > 0 && !is_supported(self.hash_alg.as_str()) {
            return Err(unsupported(self.hash_alg.as_str()));
        }
        Ok((claims, visible, hidden))
    }

    /// The envelope for a plan.
    fn seal(
        &self,
        payload: &Json,
        policy: &DisclosurePolicy,
        claims: &JsonMap,
        visible: &Vec<String>,
        hidden: &Vec<usize>,
        salts: &Vec<[u8; 16]>,
    ) -> (r: Result<DisclosedEnvelope, DisclosureError>)
        requires
            planned(*self, payload@, *policy, claims@, visible@, hidden@),
            hidden@.len() <= salts@.len(),
        ensures
            r is Ok,
            envelope_of(*self, payload@, texts(policy.visible@), salt_bytes(salts@), r),
    {
        let ghost seen = texts(visible@).to_set();
        let ghost names = hidden_names(claims@, seen);
        let (ds, sd_hashes) = match disclose_hidden(
            self.hash_alg.as_str(),
            claims,
            hidden,
            salts,
        ) {
            Ok(made) => made,
            Err(e) => {
                return Err(e);
            },
        };
        proof {
            assert(Seq::new(hidden@.len(), |i: int| in_order(claims@.dom())[hidden@[i] as int])
                =~= names);
        }
        let ghost said = texts(ds@);
        let shown: JsonMap = payload_with(claims, visible, self.hash_alg.as_str(), &sd_hashes);
        proof {
            if reads_back(JsonTree::Object(claims@), NESTING_LIMIT as nat) {
                lemma_payload_text(claims@, seen, self@.hash_alg, said);
            }
        }
        let jwt: String = match make_jwt(self.jws_alg.as_str(), shown) {
            Ok(jwt) => jwt,
            Err(e) => {
                return Err(e);
            },
        };
        proof {
            if shows_again(payload@, texts(policy.visible@)) {
                assert(visible_names(payload@->Object_0, texts(policy.visible@)) == Ok::<
                    Set<Seq<char>>,
                    DisclosureFault,
                >(seen));
                assert forall|i: int| 0 <= i < said.len() implies spelt_like_disclosure(
                    #[trigger] said[i],
                ) && opens_to(said[i], names[i], claims@[names[i]]) by {
                    assert(reads_as(
                        said[i],
                        disclosure_tree(salt_bytes(salts@)[i], names[i], claims@[names[i]]),
                    ));
                }
                assert(well_made(self@.hash_alg, jwt@, said, claims@, seen));
                law_whole_envelope_shows_all(self@.hash_alg, jwt@, said, claims@, seen);
                assert forall|picks: Seq<int>| positions(picks, said.len()) implies verified(
                    "sd-jwt"@,
                    encode_utf8(envelope_text(jwt@, #[trigger] picked(said, picks))),
                ) == Ok::<JsonTree, DisclosureFault>(
                    JsonTree::Object(shown_with(claims@, seen, picks)),
                ) by {
                    law_presented_claims_are_shown(self@.hash_alg, jwt@, said, claims@, seen, picks);
                }
            }
        }
        proof {
            law_envelope_splits_at_tildes(jwt@, said);
        }
        let envelope: String = frame(jwt, &ds);
        Ok(
            DisclosedEnvelope {
                scheme: "sd-jwt".to_owned(),
                bytes: envelope.as_str().as_bytes_vec(),
            },
        )
    }

    /// How many claims of `payload` the policy leaves hidden; that many salts
    /// [`DppSelectiveDisclosure::disclose_with_salts`] takes.
    pub fn hidden_claims(&self, payload: &Json, policy: &DisclosurePolicy) -> (n: usize)
        ensures
            n == hidden_count(payload@, texts(policy.visible@)),
    {
        match payload.as_object() {
            Some(claims) => match resolve(claims, &policy.visible) {
                Ok(visible) => hidden_positions(claims, &visible).len(),
                Err(_) => 0,
            },
            None => 0,
        }
    }

    /// Discloses `payload`: the claims that `policy` points to are visible, every
    /// other is salted with one of `salts`, in the ascending order of their
    /// names.
    ///
    /// Verifying the envelope gives the payload back, as far as [`shows_again`]
    /// says; and with only some of the disclosures, what is visible or disclosed.
    pub fn disclose_with_salts(
        &self,
        payload: &Json,
        policy: &DisclosurePolicy,
        salts: &Vec<[u8; 16]>,
    ) -> (r: Result<DisclosedEnvelope, DisclosureError>)
        requires
            hidden_count(payload@, texts(policy.visible@)) <= salts@.len(),
        ensures
            envelope_of(*self, payload@, texts(policy.visible@), salt_bytes(salts@), r),
    {
        let (claims, visible, hidden) = match self.plan(payload, policy) {
            Ok(plan) => plan,
            Err(e) => {
                return Err(e);
            },
        };
        self.seal(payload, policy, claims, &visible, &hidden, salts)
    }

    /// Discloses `payload`: the claims that `policy` points to are visible, every
    /// other is hidden behind a commitment, salted at random.
    ///
    /// Which claims are visible and which hidden, and whether there is an error
    /// and which, does not depend on the salts.
    pub fn disclose(&self, payload: &Json, policy: &DisclosurePolicy) -> (r: Result<
        DisclosedEnvelope,
        DisclosureError,
    >)
        ensures
            match r {
                Err(e) => refused(self@.hash_alg, payload@, texts(policy.visible@)) == Some(e@),
                Ok(_) => {
                    &&& refused(self@.hash_alg, payload@, texts(policy.visible@)) is None
                    &&& exists|salts: Seq<Seq<u8>>|
                        {
                            &&& #[trigger] salted(
                                salts,
                                hidden_count(payload@, texts(policy.visible@)),
                            )
                            &&& envelope_of(*self, payload@, texts(policy.visible@), salts, r)
                        }
                },
            },
    {
        let (claims, visible, hidden) = match self.plan(payload, policy) {
            Ok(plan) => plan,
            Err(e) => {
                return Err(e);
            },
        };
        let mut salts: Vec<[u8; 16]> = Vec::new();
        let mut i: usize = 0;
        while i < hidden.len()
            invariant
                i <= hidden@.len(),
                salts@.len() == i,
            decreases hidden@.len() - i,
        {
            salts.push(fresh_salt());
            i = i + 1;
        }
        let r = self.seal(payload, policy, claims, &visible, &hidden, &salts);
        proof {
            let drawn = salt_bytes(salts@);
            assert(hidden_count(payload@, texts(policy.visible@)) == hidden@.len());
            assert forall|i: int| 0 <= i < drawn.len() implies (#[trigger] drawn[i]).len() == 16 by {
                assert(drawn[i] == salts@[i]@);
            }
            assert(salted(drawn, hidden@.len()));
        }
        r
    }

    /// The payload that an envelope shows: the claims in its JWT, and those that
    /// its disclosures open.
    pub fn verify(&self, envelope: &DisclosedEnvelope) -> (r: Result<Json, DisclosureError>)
        ensures
            match r {
                Ok(t) => verified(envelope.scheme@, envelope.bytes@) == Ok::<
                    JsonTree,
                    DisclosureFault,
                >(t@),
                Err(e) => verified(envelope.scheme@, envelope.bytes@) == Err::<
                    JsonTree,
                    DisclosureFault,
                >(e@),
            },
    {
        if !same_text(envelope.scheme.as_str(), "sd-jwt") {
            return Err(DisclosureError::Unsupported(envelope.scheme.clone()));
        }
        let text: String = match read_utf8(envelope.bytes.as_slice()) {
            Ok(text) => text,
            Err(e) => {
                return Err(DisclosureError::Crypto(concat2("envelope utf-8: ", e.as_str())));
            },
        };
        match verify_text(text.as_str()) {
            Ok(claims) => Ok(Json::Object(claims)),
            Err(e) => Err(e),
        }
    }
}

// --------------------------------------------------------------- laws

/// `name` as a token of a JSON Pointer: `~` is written `~0`, and `/` is written `~1`.
pub open spec fn escaped(name: Seq<char>) -> Seq<char>
    decreases name.len(),
{
    if name.len() == 0 {
        seq![]
    } else {
        escaped(name.drop_last()) + if name.last() == '~' {
            seq!['~', '0']
        } else if name.last() == '/' {
            seq!['~', '1']
        } else {
            seq![name.last()]
        }
    }
}

/// A token says what its parts say one after the other, wherever it is cut but
/// behind a `~`. A `~` that begins no escape stands for itself, and so does every
/// other character.
pub proof fn law_token_is_read_part_by_part(a: Seq<char>, b: Seq<char>, c: char)
    requires
        a.len() > 0 ==> a.last() != '~',
    ensures
        unescaped(a + b) == unescaped(a) + unescaped(b),
        unescaped(seq![]) == Seq::<char>::empty(),
        unescaped(seq![c]) == seq![c],
        c != '0' && c != '1' && c != '~' ==> unescaped(seq!['~', c]) == seq!['~', c],
        unescaped(seq!['~', '0']) == seq!['~'],
        unescaped(seq!['~', '1']) == seq!['/'],
    decreases a.len(),
{
    reveal_with_fuel(unescaped, 3);
    let none = Seq::<char>::empty();
    assert(seq![c].skip(1) =~= none);
    assert(seq!['~', c].skip(1) =~= seq![c]);
    assert(seq!['~'] + seq![c] =~= seq!['~', c]);
    assert(seq!['~', '0'].skip(2) =~= none);
    assert(seq!['~', '1'].skip(2) =~= none);
    if a.len() == 0 {
        assert(a + b =~= b);
        assert(a =~= none);
    } else if a.len() >= 2 && a[0] == '~' && (a[1] == '0' || a[1] == '1') {
        assert((a + b).skip(2) =~= a.skip(2) + b);
        law_token_is_read_part_by_part(a.skip(2), b, c);
        let said = if a[1] == '1' {
            '/'
        } else {
            '~'
        };
        assert(seq![said] + (unescaped(a.skip(2)) + unescaped(b)) =~= (seq![said] + unescaped(
            a.skip(2),
        )) + unescaped(b));
    } else {
        assert((a + b).skip(1) =~= a.skip(1) + b);
        law_token_is_read_part_by_part(a.skip(1), b, c);
        assert(seq![a[0]] + (unescaped(a.skip(1)) + unescaped(b)) =~= (seq![a[0]] + unescaped(
            a.skip(1),
        )) + unescaped(b));
    }
}

proof fn lemma_escaped(name: Seq<char>)
    ensures
        escaped(name).len() >= name.len(),
        escaped(name).len() > 0 ==> escaped(name).last() != '~',
        !escaped(name).contains('/'),
    decreases name.len(),
{
    if name.len() > 0 {
        lemma_escaped(name.drop_last());
        let before = escaped(name.drop_last());
        let now = escaped(name);
        assert forall|i: int| 0 <= i < now.len() implies now[i] != '/' by {
            if i < before.len() {
                assert(now[i] == before[i]);
            }
        }
    }
}

/// A name that is escaped and then unescaped is the name again.
pub proof fn law_unescaping_undoes_escaping(name: Seq<char>)
    ensures
        unescaped(escaped(name)) == name,
    decreases name.len(),
{
    if name.len() == 0 {
        assert(name =~= Seq::<char>::empty());
    } else {
        let less = name.drop_last();
        let c = name.last();
        law_unescaping_undoes_escaping(less);
        lemma_escaped(less);
        let token = if c == '~' {
            seq!['~', '0']
        } else if c == '/' {
            seq!['~', '1']
        } else {
            seq![c]
        };
        law_token_is_read_part_by_part(escaped(less), token, c);
        assert(less.push(c) =~= name);
        assert(less + seq![c] =~= name);
    }
}

proof fn lemma_plain_name(name: Seq<char>)
    requires
        !name.contains('/'),
        !name.contains('~'),
    ensures
        escaped(name) == name,
    decreases name.len(),
{
    if name.len() == 0 {
        assert(name =~= Seq::<char>::empty());
    } else {
        let less = name.drop_last();
        assert(name[name.len() - 1] == name.last());
        assert forall|i: int| 0 <= i < less.len() implies less[i] != '/' && less[i] != '~' by {
            assert(less[i] == name[i]);
        }
        lemma_plain_name(less);
        assert(less + seq![name.last()] =~= name);
    }
}

/// A `/` and the escaped name of a claim lead to that claim, whatever its name; and
/// so do a `/` and the name as it is, where it has neither `/` nor `~`.
pub proof fn law_pointer_leads_to_the_named_claim(name: Seq<char>)
    requires
        name.len() > 0,
    ensures
        pointed_claim(seq!['/'] + escaped(name)) == Ok::<Seq<char>, DisclosureFault>(name),
        !name.contains('/') && !name.contains('~') ==> pointed_claim(seq!['/'] + name) == Ok::<
            Seq<char>,
            DisclosureFault,
        >(name),
{
    let token = escaped(name);
    let path = seq!['/'] + token;
    assert(path.skip(1) =~= token);
    lemma_escaped(name);
    law_unescaping_undoes_escaping(name);
    if !name.contains('/') && !name.contains('~') {
        lemma_plain_name(name);
    }
}

/// A pointer leads to a claim exactly if it is a `/`, and after it something without
/// another `/`. Without the first `/` it is no path; with nothing after it, or with
/// another `/`, it is not supported. The error begins with the pointer.
pub proof fn law_other_pointers_lead_nowhere(path: Seq<char>, a: Seq<char>, b: Seq<char>)
    ensures
        path.len() == 0 || path[0] != '/' ==> pointed_claim(path) == Err::<
            Seq<char>,
            DisclosureFault,
        >(DisclosureFault::UnknownPath(path + ": must start with '/'"@)),
        pointed_claim(seq!['/']) == Err::<Seq<char>, DisclosureFault>(
            DisclosureFault::Unsupported(
                seq!['/'] + ": only top-level JSON Pointers supported in v0.1"@,
            ),
        ),
        pointed_claim(seq!['/'] + a + seq!['/'] + b) == Err::<Seq<char>, DisclosureFault>(
            DisclosureFault::Unsupported(
                seq!['/'] + a + seq!['/'] + b
                    + ": only top-level JSON Pointers supported in v0.1"@,
            ),
        ),
        a.len() > 0 && !a.contains('/') ==> pointed_claim(seq!['/'] + a) == Ok::<
            Seq<char>,
            DisclosureFault,
        >(unescaped(a)),
{
    let nested = seq!['/'] + a + seq!['/'] + b;
    assert(nested.skip(1)[a.len() as int] == '/');
    assert((seq!['/'] + a).skip(1) =~= a);
}

/// One pointer more: what was wrong before stays wrong; a pointer that leads nowhere
/// is reported, and so is one to a claim that is not there; and any other makes its
/// claim visible. Without pointers nothing is visible.
pub proof fn law_one_path_more(
    claims: Map<Seq<char>, JsonTree>,
    paths: Seq<Seq<char>>,
    path: Seq<char>,
)
    ensures
        visible_names(claims, seq![]) == Ok::<Set<Seq<char>>, DisclosureFault>(Set::empty()),
        ({
            let before = visible_names(claims, paths);
            let now = visible_names(claims, paths.push(path));
            if before is Err {
                now == before
            } else {
                match pointed_claim(path) {
                    Err(f) => now == Err::<Set<Seq<char>>, DisclosureFault>(f),
                    Ok(name) => if claims.dom().contains(name) {
                        now == Ok::<Set<Seq<char>>, DisclosureFault>(before->Ok_0.insert(name))
                    } else {
                        now == Err::<Set<Seq<char>>, DisclosureFault>(
                            DisclosureFault::UnknownPath(path),
                        )
                    },
                }
            }
        }),
{
    assert(paths.push(path).drop_last() =~= paths);
}

/// Hidden is every claim that is not visible, each once and in the order of the
/// names.
pub proof fn law_the_rest_is_hidden(
    claims: Map<Seq<char>, JsonTree>,
    visible: Set<Seq<char>>,
    rest: Seq<Seq<char>>,
)
    requires
        forall|name: Seq<char>| #[trigger]
            rest.contains(name) <==> claims.dom().contains(name) && !visible.contains(name),
        forall|i: int, j: int|
            0 <= i < j < rest.len() ==> #[trigger] name_before(rest[i], rest[j]),
    ensures
        hidden_names(claims, visible) == rest,
{
    let hidden = claims.dom().difference(visible);
    assert forall|name: Seq<char>| #[trigger] hidden.contains(name) <==> rest.contains(name) by {
        assert(rest.contains(name) <==> claims.dom().contains(name) && !visible.contains(name));
    }
    assert(lists(rest, hidden));
    lemma_in_order(rest, hidden);
}

/// A disclosure is the base64url text of the JSON array of the base64url text of the
/// salt, the name and the value; and that of a list of claims has one for each, in
/// their order, with the salt and the value at its place.
pub proof fn law_disclosures_say_salt_name_and_value(
    claims: Map<Seq<char>, JsonTree>,
    names: Seq<Seq<char>>,
    salts: Seq<Seq<u8>>,
    i: int,
)
    requires
        0 <= i < names.len(),
    ensures
        disclosures(claims, names, salts).len() == names.len(),
        disclosures(claims, names, salts)[i] == b64_text(
            json_text(
                JsonTree::Array(
                    seq![
                        JsonTree::Text(b64_text(salts[i])),
                        JsonTree::Text(names[i]),
                        claims[names[i]],
                    ],
                ),
            ),
        ),
{
}

/// Where there are disclosures, the payload of the JWT lists for each of them, at its
/// place, the digest of all of its bytes, and names the algorithm.
pub proof fn law_payload_lists_the_digests(
    claims: Map<Seq<char>, JsonTree>,
    visible: Set<Seq<char>>,
    ds: Seq<Seq<char>>,
    i: int,
)
    requires
        0 <= i < ds.len(),
    ensures
        forall|alg: Seq<char>|
            {
                let payload = #[trigger] jwt_payload(claims, visible, alg, ds);
                &&& payload.dom().contains("_sd"@)
                &&& payload["_sd"@] is Array
                &&& payload["_sd"@]->Array_0.len() == ds.len()
                &&& payload.dom().contains("_sd_alg"@)
                &&& payload["_sd_alg"@] == JsonTree::Text(alg)
            },
        jwt_payload(claims, visible, "sha-256"@, ds)["_sd"@]->Array_0[i] == JsonTree::Text(
            b64_text(sha256(encode_utf8(ds[i]))),
        ),
        jwt_payload(claims, visible, "sha-384"@, ds)["_sd"@]->Array_0[i] == JsonTree::Text(
            b64_text(sha384(encode_utf8(ds[i]))),
        ),
        jwt_payload(claims, visible, "sha-512"@, ds)["_sd"@]->Array_0[i] == JsonTree::Text(
            b64_text(sha512(encode_utf8(ds[i]))),
        ),
        commits_to(jwt_payload(claims, visible, "sha-256"@, ds), ds[i]),
        commits_to(jwt_payload(claims, visible, "sha-384"@, ds), ds[i]),
        commits_to(jwt_payload(claims, visible, "sha-512"@, ds), ds[i]),
{
    lemma_reserved_names();
    law_commitment_hashes_all_of_the_disclosure("sha-256"@, ds[i]);
}

/// A payload with given commitments has the visible claims; where there are
/// commitments it has them too, in their order, and the algorithm; and nothing else.
pub proof fn law_payload_has_the_commitments(
    claims: Map<Seq<char>, JsonTree>,
    visible: Set<Seq<char>>,
    hash_alg: Seq<char>,
    sd: Seq<Seq<char>>,
    name: Seq<char>,
)
    ensures
        ({
            let payload = committed_payload(claims, visible, hash_alg, sd);
            if sd.len() > 0 && name == "_sd"@ {
                &&& payload.dom().contains(name)
                &&& payload[name] is Array
                &&& payload[name]->Array_0.len() == sd.len()
                &&& forall|i: int|
                    0 <= i < sd.len() ==> payload[name]->Array_0[i] == JsonTree::Text(
                        #[trigger] sd[i],
                    )
            } else if sd.len() > 0 && name == "_sd_alg"@ {
                payload.dom().contains(name) && payload[name] == JsonTree::Text(hash_alg)
            } else {
                &&& payload.dom().contains(name) <==> claims.dom().contains(name)
                    && visible.contains(name)
                &&& payload.dom().contains(name) ==> payload[name] == claims[name]
            }
        }),
{
    lemma_reserved_names();
}

/// A JWT is the base64url text of its header, a dot, that of its payload, and a dot,
/// with no signature after it. The header names the algorithm and the type, and
/// nothing else.
pub proof fn law_jwt_says_header_and_payload(
    jws_alg: Seq<char>,
    header: JsonTree,
    payload: JsonTree,
    name: Seq<char>,
)
    ensures
        unsigned_jwt(header, payload) == b64_text(json_text(header)) + seq!['.'] + b64_text(
            json_text(payload),
        ) + seq!['.'],
        jwt_header(jws_alg) is Object,
        jwt_header(jws_alg)->Object_0.dom().contains(name) <==> name == "alg"@ || name == "typ"@,
        jwt_header(jws_alg)->Object_0["alg"@] == JsonTree::Text(jws_alg),
        jwt_header(jws_alg)->Object_0["typ"@] == JsonTree::Text("vc+sd-jwt"@),
{
    reveal_strlit("alg");
    reveal_strlit("typ");
    assert("alg"@[0] != "typ"@[0]);
}

/// A payload is disclosed exactly if it is an object, every pointer leads to one of
/// its claims, and the algorithm is supported or nothing is hidden; otherwise the
/// first of these that fails is reported.
pub proof fn law_payload_is_disclosed_or_refused(
    hash_alg: Seq<char>,
    jws_alg: Seq<char>,
    claims: Map<Seq<char>, JsonTree>,
    other: JsonTree,
    paths: Seq<Seq<char>>,
    salts: Seq<Seq<u8>>,
)
    requires
        !(other is Object),
    ensures
        refused(hash_alg, other, paths) == Some(
            DisclosureFault::Unsupported("payload must be a JSON object"@),
        ),
        hidden_count(other, paths) == 0,
        ({
            let payload = JsonTree::Object(claims);
            let why = refused(hash_alg, payload, paths);
            let made = disclosed(hash_alg, jws_alg, payload, paths, salts);
            match visible_names(claims, paths) {
                Err(f) => why == Some(f) && hidden_count(payload, paths) == 0 && made == Err::<
                    (Seq<char>, Seq<Seq<char>>),
                    DisclosureFault,
                >(f),
                Ok(visible) => {
                    let hidden = hidden_names(claims, visible);
                    &&& hidden_count(payload, paths) == hidden.len()
                    &&& if hidden.len() > 0 && hash_alg != "sha-256"@ && hash_alg != "sha-384"@
                        && hash_alg != "sha-512"@ {
                        why == Some(
                            DisclosureFault::Unsupported(
                                "hash alg "@ + hash_alg + " (only 'sha-256' supported in v0.1)"@,
                            ),
                        ) && made is Err && Some(made->Err_0) == why
                    } else {
                        &&& why is None
                        &&& made is Ok
                        &&& made->Ok_0.1 == disclosures(claims, hidden, salts)
                        &&& made->Ok_0.0 == unsigned_jwt(
                            jwt_header(jws_alg),
                            JsonTree::Object(
                                jwt_payload(claims, visible, hash_alg, made->Ok_0.1),
                            ),
                        )
                    }
                },
            }
        }),
{
}

/// An envelope without disclosures is the JWT and a `~`; each disclosure adds its
/// text and a `~`.
pub proof fn law_envelope_grows_by_disclosures(
    jwt: Seq<char>,
    ds: Seq<Seq<char>>,
    d: Seq<char>,
)
    ensures
        envelope_text(jwt, seq![]) == jwt + seq!['~'],
        envelope_text(jwt, ds.push(d)) == envelope_text(jwt, ds) + d + seq!['~'],
{
    assert(ds.push(d).drop_last() =~= ds);
    assert(chained(jwt, ds) + seq!['~'] =~= chained(jwt, ds).push('~'));
}

/// The salts are the bytes that were given, in their order.
pub proof fn law_salts_are_those_given(salts: Seq<[u8; 16]>, i: int)
    requires
        0 <= i < salts.len(),
    ensures
        salt_bytes(salts).len() == salts.len(),
        salt_bytes(salts)[i] == salts[i]@,
{
}

/// What disclosing gives is, in an envelope of the scheme, the text of the JWT and of
/// all disclosures in UTF-8; or the error for which there is no JWT. Verifying the
/// envelope gives the payload back, where the payload reads back as JSON and neither
/// reserved name is visible.
pub proof fn law_envelope_holds_jwt_and_disclosures(
    scheme: DppSelectiveDisclosure,
    payload: JsonTree,
    paths: Seq<Seq<char>>,
    salts: Seq<Seq<u8>>,
    r: Result<DisclosedEnvelope, DisclosureError>,
)
    requires
        envelope_of(scheme, payload, paths, salts, r),
    ensures
        ({
            let made = disclosed(scheme@.hash_alg, scheme@.jws_alg, payload, paths, salts);
            match made {
                Ok((jwt, ds)) => {
                    &&& r is Ok
                    &&& r->Ok_0.scheme@ == "sd-jwt"@
                    &&& r->Ok_0.bytes@ == encode_utf8(envelope_text(jwt, ds))
                },
                Err(f) => r is Err && r->Err_0@ == f,
            }
        }),
        r is Ok && reads_back(payload, NESTING_LIMIT as nat) && !visible_names(
            payload->Object_0,
            paths,
        )->Ok_0.contains("_sd"@) && !visible_names(payload->Object_0, paths)->Ok_0.contains(
            "_sd_alg"@,
        ) ==> verified(r->Ok_0.scheme@, r->Ok_0.bytes@) == Ok::<JsonTree, DisclosureFault>(payload),
{
}

} // verus!
